//! The external login flow: starting a provider round trip and consuming its callback.
use crate::session::{AuthSession, CurrentUser, ExternalLogin};
use vstd::prelude::*;

verus! {

/// Errors of the external login flow.
#[derive(Clone, Copy, Debug, PartialEq, Eq, Structural)]
pub enum AuthError {
    LogoutRequired,
    LoginRequired,
    MissingExternalLogin,
    InvalidCSRF,
    MissingNonce,
    FailedExternalUserInfo,
}

/// A failed flow step, with the page the user agent is sent to, if known.
#[derive(Debug)]
pub struct FlowError {
    pub error: AuthError,
    pub error_url: Option<String>,
}

/// The kind of protocol a provider speaks.
#[derive(Clone, Copy, Debug, PartialEq, Eq, Structural)]
pub enum ProviderKind {
    OAuth2,
    OpenIdConnect,
}

/// The per-flow secrets the provider client generated for a new round trip.
#[derive(Debug)]
pub struct FlowSecrets {
    pub pkce_code_verifier: String,
    pub csrf_state: String,
    pub nonce: Option<String>,
}

/// What the client asked for when starting the flow.
#[derive(Debug)]
pub struct FlowRequest {
    pub target_url: Option<String>,
    pub error_url: Option<String>,
    pub remember_me: Option<bool>,
}

/// The user identity reported by an external provider.
#[derive(Debug)]
pub struct ExternalUserInfo {
    pub provider: String,
    pub provider_id: String,
    pub name: Option<String>,
    pub email: Option<String>,
}

/// What a valid callback hands to the code exchange and to the final step.
#[derive(Debug)]
pub struct CodeExchange {
    pub pkce_code_verifier: String,
    pub nonce: Option<String>,
    pub target_url: Option<String>,
    pub error_url: Option<String>,
    pub remember_me: bool,
    pub linked_user: Option<CurrentUser>,
}

/// How a completed flow ends.
#[derive(Debug)]
pub enum FlowOutcome {
    /// Bind the external account to the linking user.
    Link { user_id: u128, info: ExternalUserInfo },
    /// Log in (or register) with the external account.
    Login { info: ExternalUserInfo, remember_me: bool },
}

impl CurrentUser {
    /// A copy of this user.
    pub fn duplicate(&self) -> (r: CurrentUser)
        ensures
            r == *self,
    {
        CurrentUser { user_id: self.user_id, name: self.name.clone() }
    }
}

pub open spec fn stored_flow(e: ExternalLogin, secrets: FlowSecrets, request: FlowRequest) -> bool {
    &&& e.pkce_code_verifier == secrets.pkce_code_verifier
    &&& e.csrf_state == secrets.csrf_state
    &&& e.nonce == secrets.nonce
    &&& e.target_url == request.target_url
    &&& e.error_url == request.error_url
    &&& e.remember_me == (request.remember_me == Some(true))
}

/// Start a login (or registration) round trip: refused while a user is logged in.
pub fn start_login(session: &mut AuthSession, secrets: FlowSecrets, request: FlowRequest) -> (r: Result<(), FlowError>)
    ensures
        r is Err <==> old(session).user is Some,
        r is Err ==> r->Err_0.error == AuthError::LogoutRequired && r->Err_0.error_url == request.error_url
            && *final(session) == *old(session),
        r is Ok ==> {
            &&& final(session).user == old(session).user
            &&& final(session).token_login == old(session).token_login
            &&& final(session).external_login is Some
            &&& stored_flow(final(session).external_login->0, secrets, request)
            &&& final(session).external_login->0.linked_user is None
        },
{
    if session.user.is_some() {
        return Err(FlowError { error: AuthError::LogoutRequired, error_url: request.error_url });
    }
    let remember_me = match request.remember_me {
        Some(b) => b,
        None => false,
    };
    session.external_login = Some(ExternalLogin {
        pkce_code_verifier: secrets.pkce_code_verifier,
        csrf_state: secrets.csrf_state,
        nonce: secrets.nonce,
        target_url: request.target_url,
        error_url: request.error_url,
        remember_me,
        linked_user: None,
    });
    Ok(())
}

/// Start a round trip that links a provider to the logged in user: refused when nobody is logged in.
pub fn start_link(session: &mut AuthSession, secrets: FlowSecrets, request: FlowRequest) -> (r: Result<(), FlowError>)
    ensures
        r is Err <==> old(session).user is None,
        r is Err ==> r->Err_0.error == AuthError::LoginRequired && r->Err_0.error_url == request.error_url
            && *final(session) == *old(session),
        r is Ok ==> {
            &&& final(session).user == old(session).user
            &&& final(session).token_login == old(session).token_login
            &&& final(session).external_login is Some
            &&& stored_flow(final(session).external_login->0, secrets, request)
            &&& final(session).external_login->0.linked_user == old(session).user
        },
{
    let linked_user = match &session.user {
        Some(u) => u.duplicate(),
        None => return Err(FlowError { error: AuthError::LoginRequired, error_url: request.error_url }),
    };
    let remember_me = match request.remember_me {
        Some(b) => b,
        None => false,
    };
    session.external_login = Some(ExternalLogin {
        pkce_code_verifier: secrets.pkce_code_verifier,
        csrf_state: secrets.csrf_state,
        nonce: secrets.nonce,
        target_url: request.target_url,
        error_url: request.error_url,
        remember_me,
        linked_user: Some(linked_user),
    });
    Ok(())
}

/// The error a callback with `state` meets, if any, given the stored flow.
pub open spec fn callback_error(stored: Option<ExternalLogin>, kind: ProviderKind, state: Seq<char>) -> Option<AuthError> {
    match stored {
        None => Some(AuthError::MissingExternalLogin),
        Some(e) => if e.csrf_state@ != state {
            Some(AuthError::InvalidCSRF)
        } else if kind == ProviderKind::OpenIdConnect && e.nonce is None {
            Some(AuthError::MissingNonce)
        } else {
            None
        },
    }
}

/// Consume the stored flow on the provider's redirect back with `state`.
/// The external login is cleared whatever the outcome, so a callback is single-use.
pub fn callback(session: &mut AuthSession, kind: ProviderKind, state: &str) -> (r: Result<CodeExchange, FlowError>)
    ensures
        final(session).external_login is None,
        final(session).user == old(session).user,
        final(session).token_login == old(session).token_login,
        r is Err <==> callback_error(old(session).external_login, kind, state@) is Some,
        r is Err ==> r->Err_0.error == callback_error(old(session).external_login, kind, state@)->0,
        r is Err && old(session).external_login is Some ==> r->Err_0.error_url == old(session).external_login->0.error_url,
        r is Err && old(session).external_login is None ==> r->Err_0.error_url is None,
        r is Ok ==> {
            let e = old(session).external_login->0;
            let x = r->Ok_0;
            &&& x.pkce_code_verifier == e.pkce_code_verifier
            &&& x.nonce == e.nonce
            &&& x.target_url == e.target_url
            &&& x.error_url == e.error_url
            &&& x.remember_me == e.remember_me
            &&& x.linked_user == e.linked_user
        },
{
    let e = match session.external_login.take() {
        Some(e) => e,
        None => return Err(FlowError { error: AuthError::MissingExternalLogin, error_url: None }),
    };
    let returned = state.to_owned();
    if e.csrf_state != returned {
        return Err(FlowError { error: AuthError::InvalidCSRF, error_url: e.error_url });
    }
    if matches!(kind, ProviderKind::OpenIdConnect) && e.nonce.is_none() {
        return Err(FlowError { error: AuthError::MissingNonce, error_url: e.error_url });
    }
    Ok(CodeExchange {
        pkce_code_verifier: e.pkce_code_verifier,
        nonce: e.nonce,
        target_url: e.target_url,
        error_url: e.error_url,
        remember_me: e.remember_me,
        linked_user: e.linked_user,
    })
}

/// The last step, once the provider was asked for the user's identity:
/// without one the flow fails; a linking flow links, any other logs in.
pub fn complete(exchange: CodeExchange, info: Option<ExternalUserInfo>) -> (r: Result<FlowOutcome, FlowError>)
    ensures
        r is Err <==> info is None,
        r is Err ==> r->Err_0.error == AuthError::FailedExternalUserInfo && r->Err_0.error_url == exchange.error_url,
        info is Some && exchange.linked_user is Some ==> r == Ok::<FlowOutcome, FlowError>(
            FlowOutcome::Link { user_id: exchange.linked_user->0.user_id, info: info->0 }),
        info is Some && exchange.linked_user is None ==> r == Ok::<FlowOutcome, FlowError>(
            FlowOutcome::Login { info: info->0, remember_me: exchange.remember_me }),
{
    let info = match info {
        Some(info) => info,
        None => return Err(FlowError { error: AuthError::FailedExternalUserInfo, error_url: exchange.error_url }),
    };
    match exchange.linked_user {
        Some(u) => Ok(FlowOutcome::Link { user_id: u.user_id, info }),
        None => Ok(FlowOutcome::Login { info, remember_me: exchange.remember_me }),
    }
}


/// A callback whose state differs from the stored CSRF state is always refused
/// as a forgery, whatever the provider kind and the rest of the stored flow.
pub proof fn lemma_csrf_mismatch_refused(stored: Option<ExternalLogin>, kind: ProviderKind, state: Seq<char>)
    requires
        stored is Some,
        stored->0.csrf_state@ != state,
    ensures
        callback_error(stored, kind, state) == Some(AuthError::InvalidCSRF),
{
}

} // verus!
