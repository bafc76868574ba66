use vstd::prelude::*;

use crate::callback::{parse_callback_target, target_code, well_formed_target};
use crate::exchange::{is_success_status, ExchangeOutcome};
use crate::token::{parse_token_response, token_response_of, TokenResponse};

verus! {

/// Why a login attempt failed.
#[derive(Clone, Copy, PartialEq, Eq, Structural, Debug)]
pub enum LoginError {
    ConfigMissing,
    PortInUse,
    BrowserLaunchFailed,
    CallbackParseError,
    CallbackDenied,
    ProviderUnreachable,
    TokenExchangeRejected,
    MalformedTokenResponse,
}

/// What a login attempt ends in: the bearer access token, or why it
/// failed.
#[derive(PartialEq, Eq, Debug)]
pub enum LoginOutcome {
    Success(Vec<u8>),
    Failure(LoginError),
}

/// The stages of one login attempt.
#[derive(Clone, Copy, PartialEq, Eq, Structural, Debug)]
pub enum LoginStage {
    Idle,
    Bound,
    AwaitingCallback,
    Exchanging,
    Succeeded,
    Failed,
    Closed,
}

/// What the login flow asks of its caller after a callback was received.
pub enum CallbackStep {
    Exchange(Vec<u8>),
    Fail(LoginError),
}

/// What the login flow hands back after the token exchange.
pub enum ExchangeResult {
    Token(TokenResponse),
    Fail(LoginError),
}

/// One login attempt. Exactly one callback request is ever consumed and
/// the attempt always ends in an outcome stage, after which the caller
/// releases the listener and closes the session.
pub struct Session {
    pub stage: LoginStage,
}

/// The stages during which the loopback listener is held.
pub open spec fn stage_holds_listener(stage: LoginStage) -> bool {
    stage == LoginStage::Bound || stage == LoginStage::AwaitingCallback || stage
        == LoginStage::Exchanging
}

/// The stages in which an attempt has reached its outcome.
pub open spec fn is_outcome_stage(stage: LoginStage) -> bool {
    stage == LoginStage::Succeeded || stage == LoginStage::Failed
}

impl Session {
    /// Whether this attempt still holds the loopback listener.
    pub open spec fn listener_bound(&self) -> bool {
        stage_holds_listener(self.stage)
    }

    /// A fresh attempt, before the listener is bound.
    pub fn new() -> (s: Session)
        ensures
            s.stage == LoginStage::Idle,
    {
        Session { stage: LoginStage::Idle }
    }

    /// The attempt after the synchronous bind of the loopback listener:
    /// bound on success; on failure the port was already held, so the
    /// attempt fails at once with `PortInUse`.
    pub fn on_bind(&mut self, ok: bool) -> (err: Option<LoginError>)
        requires
            old(self).stage == LoginStage::Idle,
        ensures
            ok ==> final(self).stage == LoginStage::Bound && err is None,
            !ok ==> final(self).stage == LoginStage::Failed && err == Some(LoginError::PortInUse),
    {
        if ok {
            self.stage = LoginStage::Bound;
            None
        } else {
            self.stage = LoginStage::Failed;
            Some(LoginError::PortInUse)
        }
    }

    /// The attempt after the browser was asked to open the authorization
    /// URL: awaiting the callback on success; failed with
    /// `BrowserLaunchFailed` otherwise, upon which the caller releases the
    /// listener.
    pub fn on_browser(&mut self, ok: bool) -> (err: Option<LoginError>)
        requires
            old(self).stage == LoginStage::Bound,
        ensures
            ok ==> final(self).stage == LoginStage::AwaitingCallback && err is None,
            !ok ==> final(self).stage == LoginStage::Failed && err == Some(
                LoginError::BrowserLaunchFailed,
            ),
    {
        if ok {
            self.stage = LoginStage::AwaitingCallback;
            None
        } else {
            self.stage = LoginStage::Failed;
            Some(LoginError::BrowserLaunchFailed)
        }
    }

    /// The attempt after the one callback request arrived, given its raw
    /// request target. A malformed target fails with `CallbackParseError`;
    /// a well-formed target without a `code` parameter fails with
    /// `CallbackDenied` and no exchange is attempted; otherwise the
    /// attempt moves to the exchange, carrying the authorization code.
    pub fn on_callback(&mut self, target: &[u8]) -> (r: CallbackStep)
        requires
            old(self).stage == LoginStage::AwaitingCallback,
        ensures
            match r {
                CallbackStep::Exchange(code) => final(self).stage == LoginStage::Exchanging
                    && well_formed_target(target@) && target_code(target@) == Some(code@),
                CallbackStep::Fail(LoginError::CallbackParseError) => final(self).stage
                    == LoginStage::Failed && !well_formed_target(target@),
                CallbackStep::Fail(LoginError::CallbackDenied) => final(self).stage
                    == LoginStage::Failed && well_formed_target(target@) && target_code(target@)
                    is None,
                CallbackStep::Fail(_) => false,
            },
    {
        match parse_callback_target(target) {
            Some(cb) => match cb.code {
                Some(code) => {
                    self.stage = LoginStage::Exchanging;
                    CallbackStep::Exchange(code)
                },
                None => {
                    self.stage = LoginStage::Failed;
                    CallbackStep::Fail(LoginError::CallbackDenied)
                },
            },
            None => {
                self.stage = LoginStage::Failed;
                CallbackStep::Fail(LoginError::CallbackParseError)
            },
        }
    }

    /// The attempt after the one token-exchange call, given what came
    /// back: transport failure gives `ProviderUnreachable`; a non-success
    /// status gives `TokenExchangeRejected`; a success status whose body
    /// does not decode under the token schema gives
    /// `MalformedTokenResponse`; otherwise the attempt succeeded with the
    /// decoded token.
    pub fn on_exchange(&mut self, outcome: ExchangeOutcome) -> (r: ExchangeResult)
        requires
            old(self).stage == LoginStage::Exchanging,
        ensures
            match r {
                ExchangeResult::Token(t) => final(self).stage == LoginStage::Succeeded && (
                outcome matches ExchangeOutcome::Response { status, body } && is_success_status(
                    status,
                ) && token_response_of(body@) == Some(
                    (
                        t.access_token@,
                        t.token_type@,
                        t.scope@,
                        t.expires_in as int,
                        t.refresh_token@,
                    ),
                )),
                ExchangeResult::Fail(LoginError::ProviderUnreachable) => final(self).stage
                    == LoginStage::Failed && outcome is TransportFailure,
                ExchangeResult::Fail(LoginError::TokenExchangeRejected) => final(self).stage
                    == LoginStage::Failed && (outcome matches ExchangeOutcome::Response {
                    status,
                    ..
                } && !is_success_status(status)),
                ExchangeResult::Fail(LoginError::MalformedTokenResponse) => final(self).stage
                    == LoginStage::Failed && (outcome matches ExchangeOutcome::Response {
                    status,
                    body,
                } && is_success_status(status) && token_response_of(body@) is None),
                ExchangeResult::Fail(_) => false,
            },
    {
        match outcome {
            ExchangeOutcome::TransportFailure => {
                self.stage = LoginStage::Failed;
                ExchangeResult::Fail(LoginError::ProviderUnreachable)
            },
            ExchangeOutcome::Response { status, body } => {
                if !(200 <= status && status < 300) {
                    self.stage = LoginStage::Failed;
                    ExchangeResult::Fail(LoginError::TokenExchangeRejected)
                } else {
                    match parse_token_response(body.as_slice()) {
                        Some(t) => {
                            self.stage = LoginStage::Succeeded;
                            ExchangeResult::Token(t)
                        },
                        None => {
                            self.stage = LoginStage::Failed;
                            ExchangeResult::Fail(LoginError::MalformedTokenResponse)
                        },
                    }
                }
            },
        }
    }

    /// Tears the attempt down once it has reached its outcome; the caller
    /// releases the listener alongside this step.
    pub fn close(&mut self)
        requires
            is_outcome_stage(old(self).stage),
        ensures
            final(self).stage == LoginStage::Closed,
    {
        self.stage = LoginStage::Closed;
    }
}

/// Once an attempt has reached an outcome or is closed, the loopback
/// listener is no longer held, so a fresh attempt can bind the same port.
pub proof fn lemma_outcome_releases_listener(s: Session)
    requires
        is_outcome_stage(s.stage) || s.stage == LoginStage::Closed,
    ensures
        !s.listener_bound(),
{
}

/// The success page shown in the browser tab.
pub open spec fn success_page_text() -> Seq<char> {
    "Login successful! You can close this window and return to the dashboard."@
}

/// The failure page shown in the browser tab for each failure.
pub open spec fn failure_page_text(e: LoginError) -> Seq<char> {
    match e {
        LoginError::ConfigMissing => "Login failed: configuration is missing."@,
        LoginError::PortInUse => "Login failed: another login attempt is already in progress."@,
        LoginError::BrowserLaunchFailed => "Login failed: could not open the browser."@,
        LoginError::CallbackParseError => "Failed to parse the callback request."@,
        LoginError::CallbackDenied => "Login was denied: no authorization code was returned."@,
        LoginError::ProviderUnreachable => "Failed to contact Spotify."@,
        LoginError::TokenExchangeRejected => "Failed to exchange token."@,
        LoginError::MalformedTokenResponse => "Failed to parse Spotify response."@,
    }
}

/// The page shown in the browser for a failure.
pub fn browser_failure_page(e: &LoginError) -> (r: &'static str)
    ensures
        r@ == failure_page_text(*e),
{
    match e {
        LoginError::ConfigMissing => "Login failed: configuration is missing.",
        LoginError::PortInUse => "Login failed: another login attempt is already in progress.",
        LoginError::BrowserLaunchFailed => "Login failed: could not open the browser.",
        LoginError::CallbackParseError => "Failed to parse the callback request.",
        LoginError::CallbackDenied => "Login was denied: no authorization code was returned.",
        LoginError::ProviderUnreachable => "Failed to contact Spotify.",
        LoginError::TokenExchangeRejected => "Failed to exchange token.",
        LoginError::MalformedTokenResponse => "Failed to parse Spotify response.",
    }
}

/// The page shown in the browser after a successful login.
pub fn browser_success_page() -> (r: &'static str)
    ensures
        r@ == success_page_text(),
{
    "Login successful! You can close this window and return to the dashboard."
}

/// What the result notifier does with an exchange result: the outcome
/// surfaced to the host application and the browser page text. Only a
/// success carries a token, so no token event is ever emitted for a
/// failure.
pub fn notifier_plan(r: ExchangeResult) -> (p: (LoginOutcome, &'static str))
    ensures
        match r {
            ExchangeResult::Token(t) => p.0 == LoginOutcome::Success(t.access_token) && p.1@
                == success_page_text(),
            ExchangeResult::Fail(e) => p.0 == LoginOutcome::Failure(e) && p.1@
                == failure_page_text(e),
        },
{
    match r {
        ExchangeResult::Token(t) => (LoginOutcome::Success(t.access_token), browser_success_page()),
        ExchangeResult::Fail(e) => (LoginOutcome::Failure(e), browser_failure_page(&e)),
    }
}

} // verus!

