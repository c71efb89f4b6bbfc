//! The session carried in three independently signed cookies: the user
//! session, the in-flight external login, and the token login.
use crate::text::{ends_with, is_suffix, utf8};
use axum_extra::extract::cookie::Key;
use base64::{engine::general_purpose::STANDARD as B64, Engine};
use crate::clock::now_unix;
use vstd::prelude::*;

verus! {

/// Smallest master key, in bytes, that a signing key can be derived from.
pub const MIN_KEY_LEN: usize = 64;

/// Seconds in a day: a removed cookie is sent with an expiry one day back.
pub const REMOVED_COOKIE_AGE: i64 = 86400;

/// The signing key of a cookie jar (cookie's `Key`), held as an opaque value.
#[verifier::external_type_specification]
#[verifier::external_body]
pub struct ExKey(Key);

/// What the standard, padded base64 alphabet decodes a text into, if it is valid.
pub uninterp spec fn base64_decoded(s: Seq<char>) -> Option<Seq<u8>>;

/// Relies on base64's `STANDARD` engine `decode`: its outcome depends on the text alone.
#[verifier::external_body]
fn decode_base64(s: &str) -> (r: Result<Vec<u8>, String>)
    ensures
        r is Ok <==> base64_decoded(s@) is Some,
        r is Ok ==> base64_decoded(s@) == Some(r->Ok_0@),
{
    match B64.decode(s) {
        Ok(bytes) => Ok(bytes),
        Err(err) => Err(format!("{err}")),
    }
}

/// Relies on cookie's `TryFrom<&[u8]> for Key`: it fails exactly when the master
/// key holds fewer than 64 bytes.
#[verifier::external_body]
fn signing_key(master: &[u8]) -> (r: Result<Key, String>)
    ensures
        r is Ok <==> master@.len() >= MIN_KEY_LEN,
{
    match Key::try_from(master) {
        Ok(key) => Ok(key),
        Err(err) => Err(format!("{err}")),
    }
}

/// Relies on `String::push_str`, which appends the text.
pub assume_specification[ String::push_str ](s: &mut String, string: &str)
    ensures
        final(s)@ == old(s)@ + string@,
;

/// The parts of a URL that the session reads: its domain, if it has one, and its path.
#[derive(Debug)]
pub struct SiteUrl {
    pub domain: Option<String>,
    pub path: String,
}

/// Cookie related configuration of the authentication service.
#[derive(Debug)]
pub struct AuthSessionConfig {
    pub cookie_name_suffix: Option<String>,
    pub session_secret: String,
    pub external_login_secret: String,
    pub token_login_secret: String,
    pub session_max_duration: usize,
    pub token_max_duration: usize,
}

/// The authenticated user held by the user-session cookie.
#[derive(Debug)]
pub struct CurrentUser {
    pub user_id: u128,
    pub name: String,
}

/// State of an external login round trip, held by the external-login cookie.
#[derive(Debug)]
pub struct ExternalLogin {
    pub pkce_code_verifier: String,
    pub csrf_state: String,
    pub nonce: Option<String>,
    pub target_url: Option<String>,
    pub error_url: Option<String>,
    pub remember_me: bool,
    /// Set when the flow links a provider to this already authenticated user.
    pub linked_user: Option<CurrentUser>,
}

/// A bearer-token login, held by the token-login cookie; `expires` is in unix seconds.
#[derive(Debug)]
pub struct TokenLogin {
    pub user_id: u128,
    pub token: String,
    pub expires: i64,
}

#[derive(Debug)]
pub enum AuthSessionError {
    MissingHomeDomain,
    InvalidSecret(String),
    MissingDomain,
    InvalidApiDomain,
}

/// Name, signing key and scope of one of the three cookies.
pub struct CookieSettings {
    pub name: String,
    pub secret: Key,
    pub domain: String,
    pub path: String,
}

/// Settings of the three session cookies.
pub struct AuthSessionMeta {
    pub user: CookieSettings,
    pub external_login: CookieSettings,
    pub token_login: CookieSettings,
}

/// A secret is usable when it is valid base64 of at least `MIN_KEY_LEN` bytes.
pub open spec fn secret_ok(secret: Seq<char>) -> bool {
    &&& base64_decoded(secret) is Some
    &&& base64_decoded(secret)->0.len() >= MIN_KEY_LEN
}

pub open spec fn suffix_of(suffix: Option<String>) -> Seq<char> {
    match suffix {
        Some(s) => s@,
        None => Seq::empty(),
    }
}

/// The auth-service domain must end with the home domain.
pub open spec fn domains_match(home: Seq<char>, auth: Seq<char>) -> bool {
    is_suffix(utf8(home), utf8(auth))
}

/// The configuration from which `AuthSessionMeta::new` builds the cookie settings.
pub open spec fn session_meta_ok(home_url: SiteUrl, auth_base: SiteUrl, config: AuthSessionConfig) -> bool {
    &&& home_url.domain is Some
    &&& auth_base.domain is Some
    &&& domains_match(home_url.domain->0@, auth_base.domain->0@)
    &&& secret_ok(config.token_login_secret@)
    &&& secret_ok(config.session_secret@)
    &&& secret_ok(config.external_login_secret@)
}

pub open spec fn cookie_matches(c: CookieSettings, name: Seq<char>, domain: Seq<char>, path: Seq<char>) -> bool {
    c.name@ == name && c.domain@ == domain && c.path@ == path
}

fn cookie_settings(prefix: &str, suffix: &Option<String>, secret: &str, domain: &str, path: &str) -> (r: Result<CookieSettings, AuthSessionError>)
    ensures
        r is Ok <==> secret_ok(secret@),
        r is Err ==> r->Err_0 is InvalidSecret,
        r is Ok ==> cookie_matches(r->Ok_0, prefix@ + suffix_of(*suffix), domain@, path@),
{
    let key = match decode_base64(secret) {
        Ok(key) => key,
        Err(msg) => return Err(AuthSessionError::InvalidSecret(msg)),
    };
    let secret = match signing_key(key.as_slice()) {
        Ok(secret) => secret,
        Err(msg) => return Err(AuthSessionError::InvalidSecret(msg)),
    };
    let mut name = prefix.to_owned();
    match suffix {
        Some(s) => name.push_str(s.as_str()),
        None => {
            assert(name@ =~= prefix@ + suffix_of(*suffix));
        },
    }
    Ok(CookieSettings { name, secret, domain: domain.to_owned(), path: path.to_owned() })
}

impl AuthSessionMeta {
    /// The scoping that `new` gives the cookies: the user session on the home
    /// domain and `/`, the two flow cookies on the auth domain and base path.
    pub open spec fn scoped(&self, home_domain: Seq<char>, auth: SiteUrl, suffix: Option<String>) -> bool {
        let auth_domain = auth.domain->0@;
        let sfx = suffix_of(suffix);
        &&& cookie_matches(self.user, "sid"@ + sfx, home_domain, "/"@)
        &&& cookie_matches(self.external_login, "eid"@ + sfx, auth_domain, auth.path@)
        &&& cookie_matches(self.token_login, "tid"@ + sfx, auth_domain, auth.path@)
    }

    /// Settings of the session cookies for an application at `home_url` whose
    /// authentication service is at `auth_base`.
    pub fn new(home_url: &SiteUrl, auth_base: &SiteUrl, config: &AuthSessionConfig) -> (r: Result<Self, AuthSessionError>)
        ensures
            (r matches Err(AuthSessionError::MissingHomeDomain)) <==> home_url.domain is None,
            (r matches Err(AuthSessionError::MissingDomain)) <==> (home_url.domain is Some && auth_base.domain is None),
            (r matches Err(AuthSessionError::InvalidApiDomain)) <==> (home_url.domain is Some && auth_base.domain is Some
                && !domains_match(home_url.domain->0@, auth_base.domain->0@)),
            (r matches Err(AuthSessionError::InvalidSecret(_))) <==> (home_url.domain is Some && auth_base.domain is Some
                && domains_match(home_url.domain->0@, auth_base.domain->0@)
                && !(secret_ok(config.token_login_secret@) && secret_ok(config.session_secret@)
                    && secret_ok(config.external_login_secret@))),
            r is Ok <==> session_meta_ok(*home_url, *auth_base, *config),
            r is Ok ==> r->Ok_0.scoped(home_url.domain->0@, *auth_base, config.cookie_name_suffix),
    {
        let home_domain = match &home_url.domain {
            Some(d) => d,
            None => return Err(AuthSessionError::MissingHomeDomain),
        };
        let auth_domain = match &auth_base.domain {
            Some(d) => d,
            None => return Err(AuthSessionError::MissingDomain),
        };
        if !ends_with(auth_domain.as_str(), home_domain.as_str()) {
            return Err(AuthSessionError::InvalidApiDomain);
        }
        let suffix = &config.cookie_name_suffix;
        let auth_path = auth_base.path.as_str();
        let token_login = cookie_settings("tid", suffix, config.token_login_secret.as_str(), auth_domain.as_str(), auth_path)?;
        let user = cookie_settings("sid", suffix, config.session_secret.as_str(), home_domain.as_str(), "/")?;
        let external_login = cookie_settings("eid", suffix, config.external_login_secret.as_str(), auth_domain.as_str(), auth_path)?;
        Ok(AuthSessionMeta { user, external_login, token_login })
    }
}

/// The token login that survives: one that has not expired at `now`.
pub open spec fn healed_token(token: Option<TokenLogin>, now: i64) -> Option<TokenLogin> {
    match token {
        Some(t) if t.expires >= now => Some(t),
        _ => None,
    }
}

pub open spec fn token_user(token: Option<TokenLogin>) -> Option<u128> {
    match token {
        Some(t) => Some(t.user_id),
        None => None,
    }
}

pub open spec fn session_user(user: Option<CurrentUser>) -> Option<u128> {
    match user {
        Some(u) => Some(u.user_id),
        None => None,
    }
}

pub open spec fn linked_user(external: Option<ExternalLogin>) -> Option<u128> {
    match external {
        Some(e) => session_user(e.linked_user),
        None => None,
    }
}

/// The user session that survives: one whose user is that of the token login.
pub open spec fn healed_user(user: Option<CurrentUser>, token: Option<TokenLogin>) -> Option<CurrentUser> {
    if token_user(token) == session_user(user) {
        user
    } else {
        None
    }
}

/// The external login that survives: one whose linked user is that of the user session.
pub open spec fn healed_external(external: Option<ExternalLogin>, user: Option<CurrentUser>) -> Option<ExternalLogin> {
    if linked_user(external) == session_user(user) {
        external
    } else {
        None
    }
}

/// When a cookie expires.
#[derive(Clone, Copy, Debug, PartialEq, Eq, Structural)]
pub enum CookieExpiry {
    /// At the end of the browser session.
    Session,
    /// At the given unix time (in the past for a removed cookie).
    At(i64),
}

/// One Set-Cookie directive: the cookie named `name`, scoped to `domain` and
/// `path`, always `Secure`, `HttpOnly` and `SameSite=Lax`. With `has_value`
/// unset it removes the cookie on the client.
#[derive(Debug)]
pub struct CookieDirective {
    pub name: String,
    pub domain: String,
    pub path: String,
    pub expiry: CookieExpiry,
    pub has_value: bool,
    pub secure: bool,
    pub http_only: bool,
    pub same_site_lax: bool,
}

/// When the user session cookie expires: with the browser session, or at the
/// time a remembered session persists until.
pub open spec fn user_expiry(remember_until: Option<i64>) -> CookieExpiry {
    match remember_until {
        Some(at) => CookieExpiry::At(at),
        None => CookieExpiry::Session,
    }
}

/// The unix time a removed cookie is sent with: a day before `now`.
pub open spec fn removed_at(now: i64) -> i64 {
    if now >= i64::MIN + REMOVED_COOKIE_AGE {
        (now - REMOVED_COOKIE_AGE) as i64
    } else {
        i64::MIN
    }
}

pub open spec fn directive_for(d: CookieDirective, c: CookieSettings, present: bool, expiry: CookieExpiry, now: i64) -> bool {
    &&& d.name@ == c.name@
    &&& d.domain@ == c.domain@
    &&& d.path@ == c.path@
    &&& d.has_value == present
    &&& d.expiry == if present { expiry } else { CookieExpiry::At(removed_at(now)) }
    &&& d.secure && d.http_only && d.same_site_lax
}

fn directive(c: &CookieSettings, present: bool, expiry: CookieExpiry, now: i64) -> (r: CookieDirective)
    ensures
        directive_for(r, *c, present, expiry, now),
{
    let expiry = if present {
        expiry
    } else if now >= i64::MIN + REMOVED_COOKIE_AGE {
        CookieExpiry::At(now - REMOVED_COOKIE_AGE)
    } else {
        CookieExpiry::At(i64::MIN)
    };
    CookieDirective {
        name: c.name.clone(),
        domain: c.domain.clone(),
        path: c.path.clone(),
        expiry,
        has_value: present,
        secure: true,
        http_only: true,
        same_site_lax: true,
    }
}

/// All the auth related cookies of one request, handled as one entity.
#[derive(Debug)]
pub struct AuthSession {
    pub user: Option<CurrentUser>,
    pub external_login: Option<ExternalLogin>,
    pub token_login: Option<TokenLogin>,
}

impl AuthSession {
    /// The session made of the decoded cookie components, made consistent at
    /// `now`: an expired token login is dropped, then a user session whose user
    /// differs from the token login's, then an external login whose linked
    /// user differs from the user session's.
    pub fn from_components(
        user: Option<CurrentUser>,
        external_login: Option<ExternalLogin>,
        token_login: Option<TokenLogin>,
        now: i64,
    ) -> (r: AuthSession)
        ensures
            r.token_login == healed_token(token_login, now),
            r.user == healed_user(user, r.token_login),
            r.external_login == healed_external(external_login, r.user),
    {
        let token_login = match token_login {
            Some(t) => if t.expires < now {
                None
            } else {
                Some(t)
            },
            None => None,
        };
        let token_id = match &token_login {
            Some(t) => Some(t.user_id),
            None => None,
        };
        let user_id = match &user {
            Some(u) => Some(u.user_id),
            None => None,
        };
        let user = if token_id == user_id {
            user
        } else {
            None
        };
        let user_id = match &user {
            Some(u) => Some(u.user_id),
            None => None,
        };
        let linked_id = match &external_login {
            Some(e) => match &e.linked_user {
                Some(l) => Some(l.user_id),
                None => None,
            },
            None => None,
        };
        let external_login = if linked_id == user_id {
            external_login
        } else {
            None
        };
        AuthSession { user, external_login, token_login }
    }

    /// `from_components` at the current time.
    pub fn from_components_now(
        user: Option<CurrentUser>,
        external_login: Option<ExternalLogin>,
        token_login: Option<TokenLogin>,
    ) -> (r: AuthSession)
        ensures
            exists|now: i64| {
                &&& r.token_login == healed_token(token_login, now)
                &&& r.user == healed_user(user, r.token_login)
                &&& r.external_login == healed_external(external_login, r.user)
            },
    {
        let now = now_unix();
        Self::from_components(user, external_login, token_login, now)
    }

    /// Clear all the components.
    pub fn clear(&mut self)
        ensures
            final(self).user is None,
            final(self).external_login is None,
            final(self).token_login is None,
    {
        self.user = None;
        self.external_login = None;
        self.token_login = None;
    }

    /// The three Set-Cookie directives of this session at `now`, in the order
    /// user session, external login, token login. A missing component gets a
    /// removing directive; the token login cookie expires with its token. The
    /// user session lasts the browser session, or persists until
    /// `remember_until` when the user asked to be remembered.
    pub fn cookies(&self, meta: &AuthSessionMeta, now: i64, remember_until: Option<i64>) -> (r: Vec<CookieDirective>)
        ensures
            r@.len() == 3,
            directive_for(r@[0], meta.user, self.user is Some, user_expiry(remember_until), now),
            directive_for(r@[1], meta.external_login, self.external_login is Some, CookieExpiry::Session, now),
            directive_for(r@[2], meta.token_login, self.token_login is Some,
                CookieExpiry::At(if self.token_login is Some { self.token_login->0.expires } else { now }), now),
    {
        let token_expiry = match &self.token_login {
            Some(t) => t.expires,
            None => now,
        };
        let mut r = Vec::new();
        let user_expiry = match remember_until {
            Some(at) => CookieExpiry::At(at),
            None => CookieExpiry::Session,
        };
        r.push(directive(&meta.user, self.user.is_some(), user_expiry, now));
        r.push(directive(&meta.external_login, self.external_login.is_some(), CookieExpiry::Session, now));
        r.push(directive(&meta.token_login, self.token_login.is_some(), CookieExpiry::At(token_expiry), now));
        r
    }
}


/// A session made consistent at `now` heals itself: a surviving token login
/// has not expired, a surviving user session belongs to the token login's
/// user (so none survives without a token login), and a surviving external
/// login is linked to the surviving user session's user, or to none when
/// there is no user session.
pub proof fn lemma_session_heals(
    user: Option<CurrentUser>,
    external_login: Option<ExternalLogin>,
    token_login: Option<TokenLogin>,
    now: i64,
)
    ensures
        ({
            let t = healed_token(token_login, now);
            let u = healed_user(user, t);
            let e = healed_external(external_login, u);
            &&& t is Some ==> t->0.expires >= now
            &&& u is Some ==> t is Some && t->0.user_id == u->0.user_id
            &&& e is Some ==> linked_user(e) == session_user(u)
            &&& token_login is Some && token_login->0.expires < now ==> t is None && u is None
        }),
{
}

} // verus!
