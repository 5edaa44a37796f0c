//! Dashboard login through an OpenID Connect provider: the configuration
//! check, the CSRF states pending a callback, the authorization URL, and the
//! decisions taken on the callback (client secret, token answer, e-mail,
//! tenant, admin rights, session cookie, error answers).
//!
//! The HTTP exchanges with the provider and the repositories happen around
//! these functions; they take the values read and return what to send.

use vstd::prelude::*;

use crate::swim_protocol::{lemma_filter_take_step, lemma_filter_unique_by, unique_by};
use crate::text::{concat, decimal, decimal_of, has_prefix, join, joined, owned, starts_with, str_eq, string_views};

verus! {

// ============================================================================
// Configuration and errors
// ============================================================================

/// The OIDC settings of a node.
#[derive(Debug)]
pub struct OidcConfig {
    pub enabled: bool,
    pub discovery_url: String,
    pub client_id: String,
    pub client_secret: String,
    pub redirect_uri: String,
    pub scopes: Vec<String>,
    pub tenant_claim: String,
    pub default_tenant_id: String,
    pub admin_groups: Vec<String>,
}

/// Errors while setting up OIDC.
#[derive(Debug)]
pub enum OidcError {
    NotConfigured,
    Configuration(String),
    Discovery(String),
}

impl OidcError {
    /// The error message.
    pub fn message(&self) -> (s: String)
        ensures
            s@ == match self {
                OidcError::NotConfigured => "OIDC not configured"@,
                OidcError::Configuration(m) => "Configuration error: "@ + m@,
                OidcError::Discovery(m) => "Discovery error: "@ + m@,
            },
    {
        match self {
            OidcError::NotConfigured => owned("OIDC not configured"),
            OidcError::Configuration(m) => concat("Configuration error: ", m.as_str()),
            OidcError::Discovery(m) => concat("Discovery error: ", m.as_str()),
        }
    }
}

/// OIDC is usable only when enabled with a discovery URL and a client ID.
pub fn check_oidc_config(config: &OidcConfig) -> (r: Result<(), OidcError>)
    ensures
        r is Ok <==> (config.enabled && config.discovery_url@.len() > 0 && config.client_id@.len() > 0),
        r is Err ==> r matches Err(OidcError::NotConfigured),
{
    if !config.enabled || config.discovery_url.unicode_len() == 0 || config.client_id.unicode_len() == 0 {
        Err(OidcError::NotConfigured)
    } else {
        Ok(())
    }
}

/// The query parameters of the provider's callback.
#[derive(Debug)]
pub struct OidcCallbackParams {
    pub code: String,
    pub state: String,
}

/// Why a callback failed.
#[derive(Debug)]
pub enum OidcCallbackError {
    InvalidState,
    TokenExchange(String),
    ClaimVerification(String),
    MissingEmail,
    UserCreation(String),
    JwtCreation(String),
}

/// How a failed callback is answered.
#[derive(Debug, PartialEq, Eq)]
pub enum CallbackFailure {
    /// Redirect (temporarily) to the given location.
    Redirect(&'static str),
    /// Answer with the given HTTP status and body.
    Status(u16, &'static str),
}

/// Where a failed callback sends the browser to start over.
pub open spec fn login_path() -> Seq<char> {
    "/api/v1/auth/oidc/login"@
}

impl OidcCallbackError {
    /// The error message.
    pub fn message(&self) -> (s: String)
        ensures
            s@ == match self {
                OidcCallbackError::InvalidState => "Invalid CSRF state"@,
                OidcCallbackError::TokenExchange(e) => "Token exchange failed: "@ + e@,
                OidcCallbackError::ClaimVerification(e) => "Claim verification failed: "@ + e@,
                OidcCallbackError::MissingEmail => "Email claim missing from OIDC token"@,
                OidcCallbackError::UserCreation(e) => "User creation failed: "@ + e@,
                OidcCallbackError::JwtCreation(e) => "JWT creation failed: "@ + e@,
            },
    {
        match self {
            OidcCallbackError::InvalidState => owned("Invalid CSRF state"),
            OidcCallbackError::TokenExchange(e) => concat("Token exchange failed: ", e.as_str()),
            OidcCallbackError::ClaimVerification(e) => concat("Claim verification failed: ", e.as_str()),
            OidcCallbackError::MissingEmail => owned("Email claim missing from OIDC token"),
            OidcCallbackError::UserCreation(e) => concat("User creation failed: ", e.as_str()),
            OidcCallbackError::JwtCreation(e) => concat("JWT creation failed: ", e.as_str()),
        }
    }

    /// The answer to a failed callback: a stale or forged state and a failed
    /// code exchange send the browser back to the login start; the other
    /// failures are answered with an error status.
    pub fn failure_response(&self) -> (r: CallbackFailure)
        ensures
            match self {
                OidcCallbackError::InvalidState | OidcCallbackError::TokenExchange(_) =>
                    r matches CallbackFailure::Redirect(p) && p@ == login_path(),
                OidcCallbackError::ClaimVerification(_) =>
                    r matches CallbackFailure::Status(c, b) && c == 401 && b@ == "Token verification failed"@,
                OidcCallbackError::MissingEmail =>
                    r matches CallbackFailure::Status(c, b) && c == 400 && b@ == "Email claim missing from token"@,
                OidcCallbackError::UserCreation(_) =>
                    r matches CallbackFailure::Status(c, b) && c == 500 && b@ == "User creation failed"@,
                OidcCallbackError::JwtCreation(_) =>
                    r matches CallbackFailure::Status(c, b) && c == 500 && b@ == "JWT creation failed"@,
            },
    {
        match self {
            OidcCallbackError::InvalidState | OidcCallbackError::TokenExchange(_) =>
                CallbackFailure::Redirect("/api/v1/auth/oidc/login"),
            OidcCallbackError::ClaimVerification(_) => CallbackFailure::Status(401, "Token verification failed"),
            OidcCallbackError::MissingEmail => CallbackFailure::Status(400, "Email claim missing from token"),
            OidcCallbackError::UserCreation(_) => CallbackFailure::Status(500, "User creation failed"),
            OidcCallbackError::JwtCreation(_) => CallbackFailure::Status(500, "JWT creation failed"),
        }
    }
}

// ============================================================================
// Pending CSRF states
// ============================================================================

/// Seconds a CSRF state stays valid.
pub const STATE_TTL_SECONDS: u64 = 300;

/// More pending states than this and all of them are dropped.
pub const MAX_PENDING_STATES: usize = 1000;

/// A pending state created at `created` is still fresh at `now`.
pub open spec fn fresh_at(created: u64, now: u64) -> bool {
    (if now >= created { now - created } else { 0 }) < STATE_TTL_SECONDS
}

/// The filter that keeps states fresh at `now`.
pub open spec fn keeps_fresh(now: u64) -> spec_fn((Seq<char>, u64)) -> bool {
    |e: (Seq<char>, u64)| fresh_at(e.1, now)
}

/// The key of a pending entry.
pub open spec fn state_key() -> spec_fn((Seq<char>, u64)) -> Seq<char> {
    |e: (Seq<char>, u64)| e.0
}

/// State `k` is pending in `s`.
pub open spec fn has_state(s: Seq<(Seq<char>, u64)>, k: Seq<char>) -> bool {
    exists|i: int| 0 <= i < s.len() && s[i].0 == k
}

/// The position of pending state `k` in `s`.
pub open spec fn state_pos(s: Seq<(Seq<char>, u64)>, k: Seq<char>) -> int {
    choose|i: int| 0 <= i < s.len() && s[i].0 == k
}

/// When state `k` was created, if it is pending.
pub open spec fn state_created(s: Seq<(Seq<char>, u64)>, k: Seq<char>) -> Option<u64> {
    if has_state(s, k) { Some(s[state_pos(s, k)].1) } else { None }
}

/// `s` with state `k` recorded as created at `t` (replacing an earlier record).
pub open spec fn put_state(s: Seq<(Seq<char>, u64)>, k: Seq<char>, t: u64) -> Seq<(Seq<char>, u64)> {
    if has_state(s, k) { s.update(state_pos(s, k), (k, t)) } else { s.push((k, t)) }
}

/// Registering state `k` at `now`: states that are no longer fresh are
/// evicted; if still more than the maximum remain, all are dropped; then `k`
/// is recorded.
pub open spec fn after_register(s: Seq<(Seq<char>, u64)>, k: Seq<char>, now: u64) -> Seq<(Seq<char>, u64)> {
    let kept = s.filter(keeps_fresh(now));
    let base = if kept.len() > MAX_PENDING_STATES { Seq::empty() } else { kept };
    put_state(base, k, now)
}

/// Taking state `k` out of `s`.
pub open spec fn after_take(s: Seq<(Seq<char>, u64)>, k: Seq<char>) -> Seq<(Seq<char>, u64)> {
    if has_state(s, k) { s.remove(state_pos(s, k)) } else { s }
}

/// The CSRF states handed out with login redirects and not yet used, with
/// their creation times (UNIX seconds).
///
/// Entries are held in a vector kept unique by state rather than in a map
/// keyed by it: the key is text, and for a map keyed by `String` the
/// verifier has no model of the keys to prove these contracts against.
pub struct PendingStates {
    entries: Vec<(String, u64)>,
}

impl View for PendingStates {
    type V = Seq<(Seq<char>, u64)>;

    closed spec fn view(&self) -> Seq<(Seq<char>, u64)> {
        self.entries@.map_values(|e: (String, u64)| (e.0@, e.1))
    }
}

/// No state is recorded twice.
pub open spec fn pending_wf(s: Seq<(Seq<char>, u64)>) -> bool {
    unique_by(s, state_key())
}

impl PendingStates {
    /// No pending states.
    pub fn new() -> (p: PendingStates)
        ensures
            p@ == Seq::<(Seq<char>, u64)>::empty(),
            pending_wf(p@),
    {
        let p = PendingStates { entries: Vec::new() };
        assert(p@ =~= Seq::<(Seq<char>, u64)>::empty());
        p
    }

    /// Number of pending states.
    pub fn len(&self) -> (n: usize)
        ensures
            n == self@.len(),
    {
        self.entries.len()
    }

    /// The position of state `k`, if pending.
    fn find(&self, k: &str) -> (r: Option<usize>)
        requires
            pending_wf(self@),
        ensures
            match r {
                Some(i) => i < self@.len() && self@[i as int].0 == k@ && has_state(self@, k@) && state_pos(self@, k@) == i,
                None => !has_state(self@, k@),
            },
    {
        let mut i: usize = 0;
        while i < self.entries.len()
            invariant
                pending_wf(self@),
                i <= self.entries.len(),
                self@.len() == self.entries@.len(),
                forall|j: int| 0 <= j < i ==> self@[j].0 != k@,
            decreases self.entries.len() - i,
        {
            assert(self@[i as int].0 == self.entries@[i as int].0@);
            if str_eq(self.entries[i].0.as_str(), k) {
                proof {
                    assert(self@[i as int].0 == k@);
                    assert(has_state(self@, k@));
                    let p = state_pos(self@, k@);
                    assert(self@[p].0 == k@);
                    assert(state_key()(self@[p]) == state_key()(self@[i as int]));
                }
                return Some(i);
            }
            i = i + 1;
        }
        None
    }

    /// Records a new CSRF state created at `now` (UNIX seconds), evicting
    /// stale states first and dropping all of them when too many remain.
    pub fn register(&mut self, state: String, now: u64)
        requires
            pending_wf(old(self)@),
        ensures
            final(self)@ == after_register(old(self)@, state@, now),
            pending_wf(final(self)@),
            final(self)@.len() <= MAX_PENDING_STATES + 1,
            forall|i: int| 0 <= i < final(self)@.len() ==> fresh_at(#[trigger] final(self)@[i].1, now),
    {
        let ghost s0 = self@;
        let ghost keep = keeps_fresh(now);
        let mut kept: Vec<(String, u64)> = Vec::new();
        let mut i: usize = 0;
        proof {
            reveal(Seq::filter);
            assert(s0.take(0) =~= Seq::<(Seq<char>, u64)>::empty());
            assert(kept@.map_values(|e: (String, u64)| (e.0@, e.1)) =~= Seq::<(Seq<char>, u64)>::empty());
        }
        while i < self.entries.len()
            invariant
                self@ == s0,
                keep == keeps_fresh(now),
                i <= self.entries.len(),
                kept@.map_values(|e: (String, u64)| (e.0@, e.1)) == s0.take(i as int).filter(keep),
            decreases self.entries.len() - i,
        {
            proof {
                lemma_filter_take_step(s0, keep, i as int);
            }
            let ghost before = kept@;
            let created = self.entries[i].1;
            assert(s0[i as int] == (self.entries@[i as int].0@, created));
            let age = if now >= created { now - created } else { 0 };
            if age < STATE_TTL_SECONDS {
                kept.push((self.entries[i].0.clone(), created));
                proof {
                    assert(kept@.map_values(|e: (String, u64)| (e.0@, e.1))
                        =~= before.map_values(|e: (String, u64)| (e.0@, e.1)).push(s0[i as int]));
                }
            }
            i = i + 1;
        }
        proof {
            assert(s0.take(s0.len() as int) =~= s0);
            lemma_filter_unique_by(s0, keep, state_key());
        }
        if kept.len() > MAX_PENDING_STATES {
            kept = Vec::new();
            assert(kept@.map_values(|e: (String, u64)| (e.0@, e.1)) =~= Seq::<(Seq<char>, u64)>::empty());
        }
        self.entries = kept;
        let ghost base = self@;
        proof {
            assert forall|j: int| 0 <= j < base.len() implies fresh_at(#[trigger] base[j].1, now) by {
                if base.len() > 0 {
                    let f = s0.filter(keep);
                    assert(base == f);
                    assert(f.contains(f[j]));
                    s0.lemma_filter_contains_rev(keep, f[j]);
                }
            }
        }
        match self.find(state.as_str()) {
            Some(j) => {
                let ghost sv = state@;
                self.entries.set(j, (state, now));
                proof {
                    assert(self@ =~= base.update(j as int, (sv, now)));
                    assert forall|a: int, b: int| 0 <= a < self@.len() && 0 <= b < self@.len() && a != b
                        implies state_key()(self@[a]) != state_key()(self@[b]) by {
                        if a != j {
                            assert(self@[a] == base[a]);
                        }
                        if b != j {
                            assert(self@[b] == base[b]);
                        }
                    }
                    assert forall|x: int| 0 <= x < self@.len() implies fresh_at(#[trigger] self@[x].1, now) by {
                        if x != j {
                            assert(self@[x] == base[x]);
                        }
                    }
                }
            },
            None => {
                let ghost sv = state@;
                self.entries.push((state, now));
                proof {
                    assert(self@ =~= base.push((sv, now)));
                    assert forall|a: int, b: int| 0 <= a < self@.len() && 0 <= b < self@.len() && a != b
                        implies state_key()(self@[a]) != state_key()(self@[b]) by {
                        if a < base.len() {
                            assert(self@[a] == base[a]);
                        }
                        if b < base.len() {
                            assert(self@[b] == base[b]);
                        }
                    }
                    assert forall|x: int| 0 <= x < self@.len() implies fresh_at(#[trigger] self@[x].1, now) by {
                        if x < base.len() {
                            assert(self@[x] == base[x]);
                        }
                    }
                }
            },
        }
    }

    /// Takes state `k` out, returning when it was created; `None` when it is
    /// not pending.
    pub fn take(&mut self, k: &str) -> (r: Option<u64>)
        requires
            pending_wf(old(self)@),
        ensures
            r == state_created(old(self)@, k@),
            final(self)@ == after_take(old(self)@, k@),
            pending_wf(final(self)@),
    {
        let ghost s0 = self@;
        match self.find(k) {
            Some(i) => {
                let created = self.entries[i].1;
                self.entries.remove(i);
                proof {
                    assert(self@ =~= s0.remove(i as int));
                    assert forall|a: int, b: int| 0 <= a < self@.len() && 0 <= b < self@.len() && a != b
                        implies state_key()(self@[a]) != state_key()(self@[b]) by {
                        let a0 = if a < i { a } else { a + 1 };
                        let b0 = if b < i { b } else { b + 1 };
                        assert(self@[a] == s0[a0]);
                        assert(self@[b] == s0[b0]);
                    }
                }
                Some(created)
            },
            None => None,
        }
    }
}

// ============================================================================
// Login redirect
// ============================================================================

/// The scopes asked for when none are configured.
pub open spec fn default_scopes() -> Seq<char> {
    "openid email profile"@
}

/// The callback path used when no redirect URI is configured.
pub open spec fn default_callback_path() -> Seq<char> {
    "/api/v1/auth/oidc/callback"@
}

/// The `scope` parameter: the configured scopes separated by spaces, or the
/// default scopes.
pub fn scope_parameter(scopes: &Vec<String>) -> (s: String)
    ensures
        s@ == if scopes@.len() == 0 { default_scopes() } else { joined(string_views(scopes@), " "@) },
{
    if scopes.len() == 0 {
        owned("openid email profile")
    } else {
        join(scopes, " ")
    }
}

/// The redirect URI sent to the provider: the configured one, or the
/// callback path.
pub fn callback_redirect_uri(configured: &str) -> (s: String)
    ensures
        s@ == if configured@.len() == 0 { default_callback_path() } else { configured@ },
{
    if configured.unicode_len() == 0 {
        owned("/api/v1/auth/oidc/callback")
    } else {
        owned(configured)
    }
}

/// What `urlencoding::encode` makes of a string.
pub uninterp spec fn url_encoded(s: Seq<char>) -> Seq<char>;

/// Characters that percent-encoding leaves alone: ASCII letters and digits
/// and `-`, `.`, `_`, `~`.
pub open spec fn unreserved(c: char) -> bool {
    ('0' <= c <= '9') || ('A' <= c <= 'Z') || ('a' <= c <= 'z') || c == '-' || c == '.' || c == '_' || c == '~'
}

/// Percent-encodes a string for a URL query: `urlencoding::encode`, which
/// encodes every UTF-8 byte except ASCII letters, digits and `-`, `_`, `.`,
/// `~`.  The result is named; the crate's documentation and source show that
/// a string made only of those characters is returned unchanged.
#[verifier::external_body]
fn url_encode(s: &str) -> (r: String)
    ensures
        r@ == url_encoded(s@),
        (forall|i: int| 0 <= i < s@.len() ==> unreserved(#[trigger] s@[i])) ==> r@ == s@,
{
    urlencoding::encode(s).into_owned()
}

/// The provider's authorization URL for a login with the given parameters.
pub open spec fn authorization_url_of(
    endpoint: Seq<char>,
    client_id: Seq<char>,
    redirect_uri: Seq<char>,
    scopes: Seq<char>,
    state: Seq<char>,
) -> Seq<char> {
    endpoint + "?response_type=code&client_id="@ + url_encoded(client_id)
        + "&redirect_uri="@ + url_encoded(redirect_uri)
        + "&scope="@ + url_encoded(scopes)
        + "&state="@ + url_encoded(state)
}

/// The provider's authorization URL for a login with the given parameters.
pub fn authorization_url(
    endpoint: &str,
    client_id: &str,
    redirect_uri: &str,
    scopes: &str,
    state: &str,
) -> (s: String)
    ensures
        s@ == authorization_url_of(endpoint@, client_id@, redirect_uri@, scopes@, state@),
{
    let mut s = concat(endpoint, "?response_type=code&client_id=");
    s.append(url_encode(client_id).as_str());
    s.append("&redirect_uri=");
    s.append(url_encode(redirect_uri).as_str());
    s.append("&scope=");
    s.append(url_encode(scopes).as_str());
    s.append("&state=");
    s.append(url_encode(state).as_str());
    s
}

/// The login URL for `config` with CSRF state `state`.
pub open spec fn login_url_of(config: OidcConfig, endpoint: Seq<char>, state: Seq<char>) -> Seq<char> {
    authorization_url_of(
        endpoint,
        config.client_id@,
        if config.redirect_uri@.len() == 0 { default_callback_path() } else { config.redirect_uri@ },
        if config.scopes@.len() == 0 { default_scopes() } else { joined(string_views(config.scopes@), " "@) },
        state,
    )
}

/// Starts a login with CSRF state `state` at `now` (UNIX seconds): the state
/// is registered and the provider's authorization URL returned.
pub fn begin_login_with_state(
    pending: &mut PendingStates,
    config: &OidcConfig,
    authorization_endpoint: &str,
    state: String,
    now: u64,
) -> (url: String)
    requires
        pending_wf(old(pending)@),
    ensures
        final(pending)@ == after_register(old(pending)@, state@, now),
        pending_wf(final(pending)@),
        url@ == login_url_of(*config, authorization_endpoint@, state@),
{
    let scopes = scope_parameter(&config.scopes);
    let redirect_uri = callback_redirect_uri(config.redirect_uri.as_str());
    let url = authorization_url(
        authorization_endpoint,
        config.client_id.as_str(),
        redirect_uri.as_str(),
        scopes.as_str(),
        state.as_str(),
    );
    pending.register(state, now);
    url
}

/// Starts a login at `now` (UNIX seconds) with a fresh ULID as CSRF state.
pub fn begin_login(pending: &mut PendingStates, config: &OidcConfig, authorization_endpoint: &str, now: u64) -> (url: String)
    requires
        pending_wf(old(pending)@),
    ensures
        exists|state: Seq<char>|
            crate::ids::is_ulid_text(state)
            && final(pending)@ == after_register(old(pending)@, state, now)
            && url@ == login_url_of(*config, authorization_endpoint@, state),
        pending_wf(final(pending)@),
{
    let state = crate::ids::new_ulid_string();
    begin_login_with_state(pending, config, authorization_endpoint, state, now)
}

// ============================================================================
// Callback decisions
// ============================================================================

/// A callback is accepted only with a pending state, which it uses up.
pub fn accept_callback_state(pending: &mut PendingStates, state: &str) -> (r: Result<u64, OidcCallbackError>)
    requires
        pending_wf(old(pending)@),
    ensures
        match state_created(old(pending)@, state@) {
            Some(t) => r == Ok::<u64, OidcCallbackError>(t),
            None => r matches Err(OidcCallbackError::InvalidState),
        },
        final(pending)@ == after_take(old(pending)@, state@),
        pending_wf(final(pending)@),
{
    match pending.take(state) {
        Some(t) => Ok(t),
        None => Err(OidcCallbackError::InvalidState),
    }
}

/// The client secret: the configured one, else the one from the
/// environment, else the exchange cannot be made.
pub fn resolve_client_secret(configured: &str, from_environment: Option<String>) -> (r: Result<String, OidcCallbackError>)
    ensures
        configured@.len() > 0 ==> (r matches Ok(s) && s@ == configured@),
        configured@.len() == 0 ==> match from_environment {
            Some(e) => (r matches Ok(s) && s@ == e@),
            None => (r matches Err(OidcCallbackError::TokenExchange(m)) && m@ == "OIDC client secret not configured"@),
        },
{
    if configured.unicode_len() > 0 {
        Ok(owned(configured))
    } else {
        match from_environment {
            Some(e) => Ok(e),
            None => Err(OidcCallbackError::TokenExchange(owned("OIDC client secret not configured"))),
        }
    }
}

/// The token endpoint's answer is usable only with a success status (2xx).
pub fn check_token_status(status: u16, body: &str) -> (r: Result<(), OidcCallbackError>)
    ensures
        200 <= status <= 299 ==> r is Ok,
        !(200 <= status <= 299) ==> (r matches Err(OidcCallbackError::TokenExchange(m))
            && m@ == "provider returned HTTP "@ + decimal_of(status as nat) + ": "@ + body@),
{
    if 200 <= status && status <= 299 {
        Ok(())
    } else {
        let mut m = concat("provider returned HTTP ", decimal(status as u64).as_str());
        m.append(": ");
        m.append(body);
        Err(OidcCallbackError::TokenExchange(m))
    }
}

/// A token answer that could not be read.
pub fn token_parse_error(error: &str, body: &str) -> (r: OidcCallbackError)
    ensures
        r matches OidcCallbackError::TokenExchange(m) && m@ == error@ + ": "@ + body@,
{
    let mut m = concat(error, ": ");
    m.append(body);
    OidcCallbackError::TokenExchange(m)
}

/// A login needs the user's e-mail.
pub fn require_email(email: &str) -> (r: Result<(), OidcCallbackError>)
    ensures
        email@.len() == 0 <==> r matches Err(OidcCallbackError::MissingEmail),
        email@.len() > 0 <==> r is Ok,
{
    if email.unicode_len() == 0 {
        Err(OidcCallbackError::MissingEmail)
    } else {
        Ok(())
    }
}

/// The tenant of a login: the value of the configured tenant claim when set
/// and a non-empty string, else the default tenant.
pub fn resolve_tenant_slug(tenant_claim: &str, claim_value: Option<&str>, default_tenant_id: &str) -> (s: String)
    ensures
        s@ == if tenant_claim@.len() > 0 && (claim_value matches Some(v) && v@.len() > 0) {
            claim_value->0@
        } else {
            default_tenant_id@
        },
{
    if tenant_claim.unicode_len() > 0 {
        if let Some(v) = claim_value {
            if v.unicode_len() > 0 {
                return owned(v);
            }
        }
    }
    owned(default_tenant_id)
}

/// The user is in one of the admin groups.
pub open spec fn in_admin_group(user_groups: Seq<Seq<char>>, admin_groups: Seq<Seq<char>>) -> bool {
    exists|i: int, j: int| 0 <= i < user_groups.len() && 0 <= j < admin_groups.len() && user_groups[i] == admin_groups[j]
}

/// Whether the session has admin rights: the user is an admin, or belongs to
/// one of the configured admin groups.
pub fn session_is_admin(user_admin: bool, user_groups: &Vec<String>, admin_groups: &Vec<String>) -> (b: bool)
    ensures
        b == (user_admin || (admin_groups@.len() > 0
            && in_admin_group(string_views(user_groups@), string_views(admin_groups@)))),
{
    if user_admin {
        return true;
    }
    if admin_groups.len() == 0 {
        return false;
    }
    let ghost ug = string_views(user_groups@);
    let ghost ag = string_views(admin_groups@);
    let mut i: usize = 0;
    while i < user_groups.len()
        invariant
            ug == string_views(user_groups@),
            ag == string_views(admin_groups@),
            i <= user_groups.len(),
            forall|a: int, b: int| 0 <= a < i && 0 <= b < ag.len() ==> ug[a] != ag[b],
        decreases user_groups.len() - i,
    {
        let mut j: usize = 0;
        while j < admin_groups.len()
            invariant
                ug == string_views(user_groups@),
                ag == string_views(admin_groups@),
                i < user_groups.len(),
                j <= admin_groups.len(),
                forall|a: int, b: int| 0 <= a < i && 0 <= b < ag.len() ==> ug[a] != ag[b],
                forall|b: int| 0 <= b < j ==> ug[i as int] != ag[b],
            decreases admin_groups.len() - j,
        {
            if str_eq(user_groups[i].as_str(), admin_groups[j].as_str()) {
                assert(ug[i as int] == ag[j as int]);
                return true;
            }
            j = j + 1;
        }
        i = i + 1;
    }
    false
}

/// Seconds a session token (and its cookie) lives.
pub const SESSION_TTL_SECONDS: i64 = 3600;

/// When a session token issued at `now` expires.
pub fn session_expiry(now: i64) -> (exp: i64)
    requires
        now + SESSION_TTL_SECONDS <= i64::MAX,
    ensures
        exp == now + SESSION_TTL_SECONDS,
{
    now + SESSION_TTL_SECONDS
}

/// The session cookie carrying `token`; it is `Secure` and `Strict` only
/// when the redirect URI is HTTPS, `Lax` otherwise.
pub open spec fn session_cookie_of(token: Seq<char>, redirect_uri: Seq<char>) -> Seq<char> {
    let secure = has_prefix(redirect_uri, "https://"@);
    "plexspaces_token="@ + token + "; Path=/; HttpOnly; SameSite="@
        + (if secure { "Strict"@ } else { "Lax"@ })
        + "; Max-Age=3600"@
        + (if secure { "; Secure"@ } else { Seq::empty() })
}

/// The session cookie carrying `token`.
pub fn session_cookie(token: &str, redirect_uri: &str) -> (c: String)
    ensures
        c@ == session_cookie_of(token@, redirect_uri@),
{
    let secure = starts_with(redirect_uri, "https://");
    let mut c = concat("plexspaces_token=", token);
    c.append("; Path=/; HttpOnly; SameSite=");
    if secure {
        c.append("Strict");
    } else {
        c.append("Lax");
    }
    c.append("; Max-Age=3600");
    if secure {
        c.append("; Secure");
    } else {
        assert(c@ + Seq::<char>::empty() =~= c@);
    }
    c
}

/// Where the browser goes after a successful login.
pub fn dashboard_location() -> (s: &'static str)
    ensures
        s@ == "/dashboard"@,
{
    "/dashboard"
}

// ============================================================================
// Laws
// ============================================================================

/// A state registered by a login is accepted by the callback, with its
/// creation time.
pub proof fn lemma_registered_state_is_accepted(s: Seq<(Seq<char>, u64)>, k: Seq<char>, now: u64)
    requires
        pending_wf(s),
    ensures
        state_created(after_register(s, k, now), k) == Some(now),
{
    let kept = s.filter(keeps_fresh(now));
    let base = if kept.len() > MAX_PENDING_STATES { Seq::empty() } else { kept };
    lemma_filter_unique_by(s, keeps_fresh(now), state_key());
    let r = put_state(base, k, now);
    if has_state(base, k) {
        let p = state_pos(base, k);
        assert(r[p].0 == k);
        assert(has_state(r, k));
        let q = state_pos(r, k);
        if q != p {
            assert(r[q] == base[q]);
            assert(state_key()(base[q]) == state_key()(base[p]));
        }
    } else {
        let p = base.len() as int;
        assert(r[p].0 == k);
        assert(has_state(r, k));
        let q = state_pos(r, k);
        if q != p {
            assert(r[q] == base[q]);
        }
    }
}

/// A state is used up by the callback that takes it: taking it again fails.
pub proof fn lemma_state_is_single_use(s: Seq<(Seq<char>, u64)>, k: Seq<char>)
    requires
        pending_wf(s),
    ensures
        state_created(after_take(s, k), k).is_none(),
{
    if has_state(s, k) {
        let p = state_pos(s, k);
        let r = s.remove(p);
        if has_state(r, k) {
            let q = state_pos(r, k);
            let q0 = if q < p { q } else { q + 1 };
            assert(r[q] == s[q0]);
            assert(state_key()(s[q0]) == state_key()(s[p]));
        }
    }
}

/// Taking one state leaves every other pending state as it was.
pub proof fn lemma_take_keeps_other_states(s: Seq<(Seq<char>, u64)>, k: Seq<char>, other: Seq<char>)
    requires
        pending_wf(s),
        other != k,
    ensures
        state_created(after_take(s, k), other) == state_created(s, other),
{
    if has_state(s, k) {
        let p = state_pos(s, k);
        let r = s.remove(p);
        if has_state(s, other) {
            let o = state_pos(s, other);
            assert(o != p);
            let o2 = if o < p { o } else { o - 1 };
            assert(r[o2] == s[o]);
            assert(has_state(r, other));
            let q = state_pos(r, other);
            let q0 = if q < p { q } else { q + 1 };
            assert(r[q] == s[q0]);
            if q0 != o {
                assert(state_key()(s[q0]) == state_key()(s[o]));
            }
        } else {
            if has_state(r, other) {
                let q = state_pos(r, other);
                let q0 = if q < p { q } else { q + 1 };
                assert(r[q] == s[q0]);
            }
        }
    }
}

} // verus!
