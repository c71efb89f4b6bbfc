use shine_identity::flow::{
    callback, complete, start_link, start_login, AuthError, ExternalUserInfo, FlowOutcome, FlowRequest, FlowSecrets,
    ProviderKind,
};
use shine_identity::session::{AuthSession, CurrentUser};

fn secrets(csrf: &str, nonce: Option<&str>) -> FlowSecrets {
    FlowSecrets {
        pkce_code_verifier: "verifier".to_string(),
        csrf_state: csrf.to_string(),
        nonce: nonce.map(String::from),
    }
}

fn request() -> FlowRequest {
    FlowRequest {
        target_url: Some("https://example.com/home".to_string()),
        error_url: Some("https://example.com/error".to_string()),
        remember_me: Some(true),
    }
}

fn empty() -> AuthSession {
    AuthSession { user: None, external_login: None, token_login: None }
}

fn logged_in(id: u128) -> AuthSession {
    AuthSession { user: Some(CurrentUser { user_id: id, name: "me".to_string() }), external_login: None, token_login: None }
}

fn info() -> ExternalUserInfo {
    ExternalUserInfo {
        provider: "github".to_string(),
        provider_id: "42".to_string(),
        name: Some("octo".to_string()),
        email: None,
    }
}

#[test]
fn login_requires_logout() {
    let mut s = logged_in(1);
    let err = start_login(&mut s, secrets("c", None), request()).err().unwrap();
    assert_eq!(err.error, AuthError::LogoutRequired);
    assert_eq!(err.error_url.as_deref(), Some("https://example.com/error"));
    assert!(s.external_login.is_none());
}

#[test]
fn login_stores_the_flow() {
    let mut s = empty();
    start_login(&mut s, secrets("c", Some("n")), request()).unwrap();
    let e = s.external_login.as_ref().unwrap();
    assert_eq!(e.csrf_state, "c");
    assert_eq!(e.pkce_code_verifier, "verifier");
    assert_eq!(e.nonce.as_deref(), Some("n"));
    assert!(e.remember_me);
    assert!(e.linked_user.is_none());
}

#[test]
fn remember_me_defaults_to_off() {
    let mut s = empty();
    let r = FlowRequest { target_url: None, error_url: None, remember_me: None };
    start_login(&mut s, secrets("c", None), r).unwrap();
    assert!(!s.external_login.as_ref().unwrap().remember_me);
}

#[test]
fn csrf_mismatch_is_refused_and_clears_flow() {
    let mut s = empty();
    start_login(&mut s, secrets("y", None), request()).unwrap();
    let err = callback(&mut s, ProviderKind::OAuth2, "x").err().unwrap();
    assert_eq!(err.error, AuthError::InvalidCSRF);
    assert_eq!(err.error_url.as_deref(), Some("https://example.com/error"));
    assert!(s.external_login.is_none());
    // the flow is single use: a replay finds nothing
    let err = callback(&mut s, ProviderKind::OAuth2, "y").err().unwrap();
    assert_eq!(err.error, AuthError::MissingExternalLogin);
    assert!(err.error_url.is_none());
}

#[test]
fn oidc_callback_needs_a_nonce() {
    let mut s = empty();
    start_login(&mut s, secrets("c", None), request()).unwrap();
    let err = callback(&mut s, ProviderKind::OpenIdConnect, "c").err().unwrap();
    assert_eq!(err.error, AuthError::MissingNonce);
    assert!(s.external_login.is_none());
}

#[test]
fn valid_login_callback_logs_in() {
    let mut s = empty();
    start_login(&mut s, secrets("c", Some("n")), request()).unwrap();
    let exchange = callback(&mut s, ProviderKind::OpenIdConnect, "c").unwrap();
    assert!(s.external_login.is_none());
    assert_eq!(exchange.pkce_code_verifier, "verifier");
    assert_eq!(exchange.nonce.as_deref(), Some("n"));
    match complete(exchange, Some(info())).ok().unwrap() {
        FlowOutcome::Login { info, remember_me } => {
            assert_eq!(info.provider_id, "42");
            assert!(remember_me);
        },
        FlowOutcome::Link { .. } => panic!("expected a login"),
    }
}

#[test]
fn link_flow_links_to_current_user() {
    let mut s = empty();
    let err = start_link(&mut s, secrets("c", None), request()).err().unwrap();
    assert_eq!(err.error, AuthError::LoginRequired);
    let mut s = logged_in(5);
    start_link(&mut s, secrets("c", None), request()).unwrap();
    assert_eq!(s.external_login.as_ref().unwrap().linked_user.as_ref().unwrap().user_id, 5);
    let exchange = callback(&mut s, ProviderKind::OAuth2, "c").unwrap();
    match complete(exchange, Some(info())).ok().unwrap() {
        FlowOutcome::Link { user_id, info } => {
            assert_eq!(user_id, 5);
            assert_eq!(info.provider, "github");
        },
        FlowOutcome::Login { .. } => panic!("expected a link"),
    }
}

#[test]
fn missing_user_info_fails_the_flow() {
    let mut s = empty();
    start_login(&mut s, secrets("c", None), request()).unwrap();
    let exchange = callback(&mut s, ProviderKind::OAuth2, "c").unwrap();
    let err = complete(exchange, None).err().unwrap();
    assert_eq!(err.error, AuthError::FailedExternalUserInfo);
    assert_eq!(err.error_url.as_deref(), Some("https://example.com/error"));
}

#[test]
fn oidc_csrf_mismatch_is_refused_before_nonce() {
    let mut s = empty();
    start_login(&mut s, secrets("y", None), request()).unwrap();
    let err = callback(&mut s, ProviderKind::OpenIdConnect, "x").err().unwrap();
    assert_eq!(err.error, AuthError::InvalidCSRF);
    assert_eq!(err.error_url.as_deref(), Some("https://example.com/error"));
    assert!(s.external_login.is_none());
}
