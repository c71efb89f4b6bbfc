use shine_identity::service::{AuthBuildError, AuthConfig, AuthServiceBuilder, OAuth2Config, OIDCConfig, TokenGenerator};
use shine_identity::session::{AuthSessionConfig, AuthSessionError, SiteUrl};

fn secret() -> String {
    format!("{}==", "A".repeat(86))
}

fn oidc() -> OIDCConfig {
    OIDCConfig {
        discovery_url: "https://accounts.example.com".to_string(),
        client_id: "id".to_string(),
        client_secret: "secret".to_string(),
        scopes: vec!["openid".to_string()],
        redirect_url: "https://auth.example.com/auth/google/auth".to_string(),
    }
}

fn oauth2() -> OAuth2Config {
    OAuth2Config {
        authorization_url: "https://github.com/login/oauth/authorize".to_string(),
        token_url: "https://github.com/login/oauth/access_token".to_string(),
        user_info_url: "https://api.github.com/user".to_string(),
        user_info_mapping: vec![("name".to_string(), "login".to_string())],
        extensions: vec![],
        client_id: "id".to_string(),
        client_secret: "secret".to_string(),
        scopes: vec![],
        redirect_url: "https://auth.example.com/auth/github/auth".to_string(),
    }
}

fn config(openid: &[&str], oauth: &[&str], duration: usize) -> AuthConfig {
    AuthConfig {
        home_url: SiteUrl { domain: Some("example.com".to_string()), path: "/".to_string() },
        api_url: SiteUrl { domain: Some("auth.example.com".to_string()), path: "/identity".to_string() },
        auth_session: AuthSessionConfig {
            cookie_name_suffix: None,
            session_secret: secret(),
            external_login_secret: secret(),
            token_login_secret: secret(),
            session_max_duration: duration,
            token_max_duration: duration,
        },
        openid: openid.iter().map(|n| (n.to_string(), oidc())).collect(),
        oauth2: oauth.iter().map(|n| (n.to_string(), oauth2())).collect(),
    }
}

#[test]
fn providers_are_registered_in_order() {
    let b = AuthServiceBuilder::new(&config(&["google"], &["github", "discord"], 3600)).unwrap();
    assert_eq!(b.providers, vec!["google", "github", "discord"]);
    assert_eq!(b.token_generator.max_duration, 3600);
    assert_eq!(b.auth_session_meta.user.name, "sid");
}

#[test]
fn duplicate_provider_is_refused() {
    let err = AuthServiceBuilder::new(&config(&["google"], &["github", "google"], 3600)).err().unwrap();
    assert!(matches!(err, AuthBuildError::ProviderConflict(ref n) if n == "google"));
    let err = AuthServiceBuilder::new(&config(&[], &["github", "github"], 3600)).err().unwrap();
    assert!(matches!(err, AuthBuildError::ProviderConflict(ref n) if n == "github"));
}

#[test]
fn oversized_duration_is_refused() {
    let err = AuthServiceBuilder::new(&config(&[], &[], usize::MAX)).err().unwrap();
    assert!(matches!(err, AuthBuildError::InvalidTokenDuration));
}

#[test]
fn bad_session_config_is_reported() {
    let mut c = config(&[], &[], 10);
    c.api_url.domain = Some("auth.other.com".to_string());
    let err = AuthServiceBuilder::new(&c).err().unwrap();
    match err {
        AuthBuildError::InvalidAuthSession(m) => assert_eq!(m, "Auth api domain shall be a subdomain of the application"),
        other => panic!("unexpected {other:?}"),
    }
    assert_eq!(AuthSessionError::InvalidSecret("x".to_string()).message(), "Invalid session secret: x");
}

#[test]
fn tokens_expire_after_max_duration() {
    let g = TokenGenerator::new(60);
    let t = g.issue(7, "tok".to_string(), 1000);
    assert_eq!((t.user_id, t.token.as_str(), t.expires), (7, "tok", 1060));
    let t = g.issue(7, "tok".to_string(), i64::MAX - 10);
    assert_eq!(t.expires, i64::MAX);
    let a = g.generate(7);
    let b = g.generate(7);
    assert_eq!(a.user_id, 7);
    assert_eq!(a.token.len(), 32);
    assert_ne!(a.token, b.token);
    assert!(a.expires > 1_600_000_000);
}
