//! Configuration of the authentication service, its provider registry and
//! the token generator.
use crate::clock::now_unix;
use crate::session::{session_meta_ok, AuthSessionConfig, AuthSessionError, AuthSessionMeta, SiteUrl, TokenLogin};
use vstd::prelude::*;

verus! {

/// Provider specific steps of the user info lookup.
#[derive(Clone, Copy, Debug, PartialEq, Eq, Hash, PartialOrd, Ord, Structural)]
pub enum ExternalUserInfoExtensions {
    GithubEmail,
}

/// An OAuth2 provider; `user_info_mapping` maps normalized fields to the provider's field names.
#[derive(Debug)]
pub struct OAuth2Config {
    pub authorization_url: String,
    pub token_url: String,
    pub user_info_url: String,
    pub user_info_mapping: Vec<(String, String)>,
    pub extensions: Vec<ExternalUserInfoExtensions>,
    pub client_id: String,
    pub client_secret: String,
    pub scopes: Vec<String>,
    pub redirect_url: String,
}

/// An OpenID Connect provider.
#[derive(Debug)]
pub struct OIDCConfig {
    pub discovery_url: String,
    pub client_id: String,
    pub client_secret: String,
    pub scopes: Vec<String>,
    pub redirect_url: String,
}

/// Configuration of the authentication service; providers are keyed by name.
#[derive(Debug)]
pub struct AuthConfig {
    pub home_url: SiteUrl,
    pub api_url: SiteUrl,
    pub auth_session: AuthSessionConfig,
    pub openid: Vec<(String, OIDCConfig)>,
    pub oauth2: Vec<(String, OAuth2Config)>,
}

/// Where the relational store is reached.
#[derive(Debug)]
pub struct DBConfig {
    pub connection_string: String,
}

/// Certificate and key files of the TLS listener.
#[derive(Debug)]
pub struct TlsConfig {
    pub cert: String,
    pub key: String,
}

/// The configuration read at start differs from the final one.
#[derive(Debug)]
pub struct PreInitConfigError;

/// Why the authentication service could not be built from its configuration.
#[derive(Debug)]
pub enum AuthBuildError {
    InvalidTokenDuration,
    ProviderConflict(String),
    InvalidAuthSession(String),
    InvalidIssuer(String),
    InvalidAuthUrl(String),
    InvalidTokenUrl(String),
    InvalidUserInfoUrl(String),
    RedirectUrl(String),
    Discovery(String),
}

impl AuthSessionError {
    /// A description of the error.
    pub fn message(&self) -> (r: String)
        ensures
            self is MissingHomeDomain ==> r@ == "Missing or invalid domain for application home"@,
            self is InvalidSecret ==> r@ == "Invalid session secret: "@ + self->InvalidSecret_0@,
            self is MissingDomain ==> r@ == "Missing domain for auth scope"@,
            self is InvalidApiDomain ==> r@ == "Auth api domain shall be a subdomain of the application"@,
    {
        match self {
            AuthSessionError::MissingHomeDomain => "Missing or invalid domain for application home".to_owned(),
            AuthSessionError::InvalidSecret(detail) => {
                let mut m = "Invalid session secret: ".to_owned();
                m.push_str(detail.as_str());
                m
            },
            AuthSessionError::MissingDomain => "Missing domain for auth scope".to_owned(),
            AuthSessionError::InvalidApiDomain => "Auth api domain shall be a subdomain of the application".to_owned(),
        }
    }
}

/// Relies on uuid's `Uuid::new_v4` and its `simple` format: a random token
/// of 32 hex digits (`Simple::LENGTH`); nothing else is known of its value.
#[verifier::external_body]
fn random_token() -> (r: String)
    ensures
        r@.len() == TOKEN_LEN,
{
    uuid::Uuid::new_v4().simple().to_string()
}

/// Length of a generated token.
pub const TOKEN_LEN: usize = 32;

/// `now + duration`, held at the largest time.
pub open spec fn expiry_after(now: i64, duration: i64) -> i64 {
    if now + duration > i64::MAX {
        i64::MAX
    } else if now + duration < i64::MIN {
        i64::MIN
    } else {
        (now + duration) as i64
    }
}

/// Issues bearer tokens that expire `max_duration` seconds after issue.
#[derive(Debug)]
pub struct TokenGenerator {
    pub max_duration: i64,
}

impl TokenGenerator {
    pub fn new(max_duration: i64) -> (r: TokenGenerator)
        ensures
            r.max_duration == max_duration,
    {
        TokenGenerator { max_duration }
    }

    /// The token login of `user_id` for `token`, issued at `now`.
    pub fn issue(&self, user_id: u128, token: String, now: i64) -> (r: TokenLogin)
        ensures
            r.user_id == user_id,
            r.token == token,
            r.expires == expiry_after(now, self.max_duration),
    {
        let expires = if self.max_duration >= 0 {
            if now > i64::MAX - self.max_duration {
                i64::MAX
            } else {
                now + self.max_duration
            }
        } else if now < i64::MIN - self.max_duration {
            i64::MIN
        } else {
            now + self.max_duration
        };
        TokenLogin { user_id, token, expires }
    }

    /// A fresh random token for `user_id`, issued now.
    pub fn generate(&self, user_id: u128) -> (r: TokenLogin)
        ensures
            r.user_id == user_id,
            r.token@.len() == TOKEN_LEN,
            exists|now: i64| r.expires == expiry_after(now, self.max_duration),
    {
        let token = random_token();
        let now = now_unix();
        self.issue(user_id, token, now)
    }
}

/// The texts of a sequence of strings.
pub open spec fn texts(v: Seq<String>) -> Seq<Seq<char>> {
    v.map_values(|s: String| s@)
}

/// The texts of the keys of a sequence of pairs.
pub open spec fn keys<T>(v: Seq<(String, T)>) -> Seq<Seq<char>> {
    v.map_values(|p: (String, T)| p.0@)
}

/// The names of the configured providers, OpenID Connect ones first.
pub open spec fn provider_names(config: AuthConfig) -> Seq<Seq<char>> {
    keys(config.openid@) + keys(config.oauth2@)
}

/// `name` stands at two places of `names`.
pub open spec fn occurs_twice(names: Seq<Seq<char>>, name: Seq<char>) -> bool {
    exists|i: int, j: int| 0 <= i < j < names.len() && names[i] == name && names[j] == name
}

pub open spec fn names_distinct(names: Seq<Seq<char>>) -> bool {
    forall|i: int, j: int| 0 <= i < j < names.len() ==> names[i] != names[j]
}

/// The parts of the authentication service that its configuration decides.
pub struct AuthServiceBuilder {
    pub providers: Vec<String>,
    pub token_generator: TokenGenerator,
    pub auth_session_meta: AuthSessionMeta,
}

fn push_names<T>(names: &mut Vec<String>, providers: &Vec<(String, T)>) -> (r: Result<(), String>)
    requires
        names_distinct(texts(old(names)@)),
    ensures
        r is Ok <==> names_distinct(texts(old(names)@) + keys(providers@)),
        r is Ok ==> texts(final(names)@) == texts(old(names)@)
            + keys(providers@),
        r is Err ==> occurs_twice(texts(old(names)@) + keys(providers@), r->Err_0@),
{
    let ghost base = texts(old(names)@);
    let ghost added = keys(providers@);
    let mut i: usize = 0;
    while i < providers.len()
        invariant
            i <= providers@.len(),
            added == keys(providers@),
            base == texts(old(names)@),
            texts(names@) == base + added.subrange(0, i as int),
            names_distinct(texts(names@)),
        decreases providers@.len() - i,
    {
        let name = &providers[i].0;
        let mut j: usize = 0;
        while j < names.len()
            invariant
                j <= names@.len(),
                forall|m: int| 0 <= m < j ==> names@[m]@ != name@,
                i < providers@.len(),
                *name == providers@[i as int].0,
                added == keys(providers@),
                base == texts(old(names)@),
                texts(names@) == base + added.subrange(0, i as int),
                names_distinct(texts(names@)),
            decreases names@.len() - j,
        {
            if names[j] == *name {
                proof {
                    let all = base + added;
                    let cur = texts(names@);
                    assert(cur[j as int] == name@);
                    assert(added[i as int] == name@);
                    assert(all[base.len() + i] == name@);
                    if j < base.len() {
                        assert(all[j as int] == cur[j as int]);
                    } else {
                        let sub = added.subrange(0, i as int);
                        assert(cur.len() == names@.len());
                        assert(cur.len() == base.len() + sub.len());
                        assert(cur[j as int] == (base + sub)[j as int]);
                        assert(cur[j as int] == sub[j - base.len()]);
                        assert(all[j as int] == added[j - base.len()]);
                    }
                    assert(j < base.len() + i);
                    assert(all[j as int] == all[base.len() + i]);
                    assert(!names_distinct(all));
                    assert(occurs_twice(all, name@));
                }
                return Err(name.clone());
            }
            j = j + 1;
        }
        let ghost before = texts(names@);
        names.push(name.clone());
        proof {
            assert(texts(names@) =~= before.push(name@));
            assert(added.subrange(0, i + 1) =~= added.subrange(0, i as int).push(name@));
        }
        i = i + 1;
    }
    assert(added.subrange(0, i as int) =~= added);
    Ok(())
}

impl AuthServiceBuilder {
    /// Check the configuration and derive what it decides: the session
    /// duration must fit the token clock, provider names must be unique over
    /// both protocols, and the session cookies must be configurable.
    pub fn new(config: &AuthConfig) -> (r: Result<Self, AuthBuildError>)
        ensures
            (r matches Err(AuthBuildError::InvalidTokenDuration))
                <==> config.auth_session.session_max_duration as int > i64::MAX,
            (r matches Err(AuthBuildError::ProviderConflict(_))) <==> config.auth_session.session_max_duration as int <= i64::MAX
                && !names_distinct(provider_names(*config)),
            (r matches Err(AuthBuildError::ProviderConflict(n)) ==> occurs_twice(provider_names(*config), n@)),
            (r matches Err(AuthBuildError::InvalidAuthSession(_))) <==> config.auth_session.session_max_duration as int <= i64::MAX
                && names_distinct(provider_names(*config))
                && !session_meta_ok(config.home_url, config.api_url, config.auth_session),
            r is Ok <==> config.auth_session.session_max_duration as int <= i64::MAX
                && names_distinct(provider_names(*config))
                && session_meta_ok(config.home_url, config.api_url, config.auth_session),
            r is Ok ==> texts(r->Ok_0.providers@) == provider_names(*config)
                && r->Ok_0.token_generator.max_duration == config.auth_session.session_max_duration as int
                && r->Ok_0.auth_session_meta.scoped(config.home_url.domain->0@, config.api_url,
                    config.auth_session.cookie_name_suffix),
    {
        let duration = config.auth_session.session_max_duration;
        if duration as u64 > i64::MAX as u64 {
            return Err(AuthBuildError::InvalidTokenDuration);
        }
        let token_generator = TokenGenerator::new(duration as i64);
        let mut providers: Vec<String> = Vec::new();
        assert(texts(providers@) =~= Seq::<Seq<char>>::empty());
        if let Err(name) = push_names(&mut providers, &config.openid) {
            proof {
                assert(Seq::<Seq<char>>::empty() + keys(config.openid@) =~= keys(config.openid@));
                let all = provider_names(*config);
                let a = keys(config.openid@);
                assert(forall|k: int| 0 <= k < a.len() ==> all[k] == a[k]);
                assert(!names_distinct(all));
                assert(occurs_twice(all, name@)) by {
                    let (x, y) = choose|x: int, y: int| 0 <= x < y < a.len() && a[x] == name@ && a[y] == name@;
                    assert(all[x] == name@ && all[y] == name@);
                }
            }
            return Err(AuthBuildError::ProviderConflict(name));
        }
        assert(Seq::<Seq<char>>::empty() + keys(config.openid@) =~= keys(config.openid@));
        if let Err(name) = push_names(&mut providers, &config.oauth2) {
            return Err(AuthBuildError::ProviderConflict(name));
        }
        let auth_session_meta = match AuthSessionMeta::new(&config.home_url, &config.api_url, &config.auth_session) {
            Ok(meta) => meta,
            Err(err) => return Err(AuthBuildError::InvalidAuthSession(err.message())),
        };
        Ok(AuthServiceBuilder { providers, token_generator, auth_session_meta })
    }
}

} // verus!
