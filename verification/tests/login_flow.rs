use loopback_oauth::exchange::ExchangeOutcome;
use loopback_oauth::flow::{
    browser_failure_page, browser_success_page, notifier_plan, CallbackStep, ExchangeResult,
    LoginError, LoginOutcome, LoginStage, Session,
};

fn bytes(s: &str) -> Vec<u8> {
    s.as_bytes().to_vec()
}

const WELL_FORMED: &[u8] = b"{\"access_token\":\"tok_1\",\"token_type\":\"Bearer\",\"scope\":\"streaming\",\"expires_in\":3600,\"refresh_token\":\"r1\"}";

#[test]
fn bind_failure_is_port_in_use() {
    let mut s = Session::new();
    let err = s.on_bind(false);
    assert_eq!(err, Some(LoginError::PortInUse));
    assert_eq!(s.stage, LoginStage::Failed);
    s.close();
    assert_eq!(s.stage, LoginStage::Closed);
}

#[test]
fn browser_failure_fails_the_attempt() {
    let mut s = Session::new();
    assert_eq!(s.on_bind(true), None);
    let err = s.on_browser(false);
    assert_eq!(err, Some(LoginError::BrowserLaunchFailed));
    assert_eq!(s.stage, LoginStage::Failed);
}

#[test]
fn callback_with_code_moves_to_exchange() {
    let mut s = Session::new();
    s.on_bind(true);
    s.on_browser(true);
    match s.on_callback(b"/auth/callback?code=ABC123") {
        CallbackStep::Exchange(code) => assert_eq!(code, bytes("ABC123")),
        CallbackStep::Fail(e) => panic!("unexpected failure: {:?}", e),
    }
    assert_eq!(s.stage, LoginStage::Exchanging);
}

#[test]
fn callback_without_code_is_denied_without_exchange() {
    let mut s = Session::new();
    s.on_bind(true);
    s.on_browser(true);
    match s.on_callback(b"/auth/callback?error=access_denied") {
        CallbackStep::Fail(e) => assert_eq!(e, LoginError::CallbackDenied),
        CallbackStep::Exchange(_) => panic!("exchange must not be attempted"),
    }
    assert_eq!(s.stage, LoginStage::Failed);
}

#[test]
fn malformed_callback_is_a_parse_error() {
    let mut s = Session::new();
    s.on_bind(true);
    s.on_browser(true);
    match s.on_callback(b"bad target") {
        CallbackStep::Fail(e) => assert_eq!(e, LoginError::CallbackParseError),
        CallbackStep::Exchange(_) => panic!("exchange must not be attempted"),
    }
    assert_eq!(s.stage, LoginStage::Failed);
}

fn session_at_exchange() -> Session {
    let mut s = Session::new();
    s.on_bind(true);
    s.on_browser(true);
    match s.on_callback(b"/auth/callback?code=ABC123") {
        CallbackStep::Exchange(_) => {}
        CallbackStep::Fail(e) => panic!("unexpected failure: {:?}", e),
    }
    s
}

#[test]
fn http_400_is_rejected_and_no_token_is_emitted() {
    let mut s = session_at_exchange();
    let r = s.on_exchange(ExchangeOutcome::Response { status: 400, body: bytes("bad request") });
    match r {
        ExchangeResult::Fail(e) => {
            assert_eq!(e, LoginError::TokenExchangeRejected);
            let (outcome, page) = notifier_plan(ExchangeResult::Fail(e));
            assert_eq!(outcome, LoginOutcome::Failure(LoginError::TokenExchangeRejected));
            assert_eq!(page, "Failed to exchange token.");
        }
        ExchangeResult::Token(_) => panic!("a rejected exchange must not yield a token"),
    }
    assert_eq!(s.stage, LoginStage::Failed);
}

#[test]
fn transport_failure_is_provider_unreachable() {
    let mut s = session_at_exchange();
    match s.on_exchange(ExchangeOutcome::TransportFailure) {
        ExchangeResult::Fail(e) => assert_eq!(e, LoginError::ProviderUnreachable),
        ExchangeResult::Token(_) => panic!("an unreachable provider must not yield a token"),
    }
}

#[test]
fn malformed_body_on_success_status_is_malformed_response() {
    let mut s = session_at_exchange();
    let r = s.on_exchange(ExchangeOutcome::Response { status: 200, body: bytes("{oops") });
    match r {
        ExchangeResult::Fail(e) => assert_eq!(e, LoginError::MalformedTokenResponse),
        ExchangeResult::Token(_) => panic!("a malformed body must not yield a token"),
    }
}

#[test]
fn well_formed_exchange_emits_exactly_the_token() {
    let mut s = session_at_exchange();
    let r = s.on_exchange(ExchangeOutcome::Response { status: 200, body: WELL_FORMED.to_vec() });
    let (outcome, page) = notifier_plan(r);
    assert_eq!(outcome, LoginOutcome::Success(bytes("tok_1")));
    assert_eq!(
        page,
        "Login successful! You can close this window and return to the dashboard."
    );
    assert_eq!(s.stage, LoginStage::Succeeded);
    s.close();
    assert_eq!(s.stage, LoginStage::Closed);
}

#[test]
fn every_failure_has_a_browser_page() {
    let errors = [
        LoginError::ConfigMissing,
        LoginError::PortInUse,
        LoginError::BrowserLaunchFailed,
        LoginError::CallbackParseError,
        LoginError::CallbackDenied,
        LoginError::ProviderUnreachable,
        LoginError::TokenExchangeRejected,
        LoginError::MalformedTokenResponse,
    ];
    for e in errors {
        assert!(!browser_failure_page(&e).is_empty());
    }
    assert_eq!(
        browser_failure_page(&LoginError::MalformedTokenResponse),
        "Failed to parse Spotify response."
    );
    assert_eq!(
        browser_failure_page(&LoginError::ProviderUnreachable),
        "Failed to contact Spotify."
    );
    assert!(browser_success_page().starts_with("Login successful!"));
}
