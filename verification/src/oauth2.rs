//! Signing in with an OAuth2 provider.
use vstd::prelude::*;

use crate::claim::{bcrypt_hash, NewUser, UserRole};
use crate::text::{chars_of, eq_ignore_case, has_text, join, string_of, text_eq};
use crate::url::urlencoding;

verus! {

/// A provider that users can sign in with.
#[derive(Debug, PartialEq, Eq)]
pub struct OAuth2ClientRegistration {
    pub registration_id: String,
    pub client_id: String,
    pub scopes: Vec<String>,
    /// Whether the provider speaks OpenID Connect.
    pub oidc: bool,
    pub redirect_uri: Option<String>,
    pub authorization_uri: Option<String>,
    pub token_uri: Option<String>,
    pub user_info_uri: Option<String>,
    pub issuer_uri: Option<String>,
}

/// The provider at index `i` is the first with this id.
pub open spec fn is_registration(
    registrations: Seq<OAuth2ClientRegistration>,
    id: Seq<char>,
    i: int,
) -> bool {
    &&& 0 <= i < registrations.len()
    &&& registrations[i].registration_id@ == id
    &&& forall|k: int| 0 <= k < i ==> (#[trigger] registrations[k]).registration_id@ != id
}

/// A provider is found by its id: the first that has it, and no two stand for one id.
pub proof fn provider_is_found_by_its_id(
    registrations: Seq<OAuth2ClientRegistration>,
    id: Seq<char>,
    i: int,
    j: int,
)
    requires
        is_registration(registrations, id, i),
    ensures
        0 <= i < registrations.len(),
        registrations[i].registration_id@ == id,
        0 <= j < registrations.len() && registrations[j].registration_id@ == id ==> i <= j,
        is_registration(registrations, id, j) ==> i == j,
{
}

/// Finds a provider by its id.
pub fn find_registration<'a>(registrations: &'a Vec<OAuth2ClientRegistration>, registration_id: &str) -> (r:
    Option<&'a OAuth2ClientRegistration>)
    ensures
        match r {
            Some(reg) => exists|i: int|
                is_registration(registrations@, registration_id@, i) && *reg == registrations@[i],
            None => forall|i: int|
                0 <= i < registrations.len() ==> (#[trigger] registrations@[i]).registration_id@
                    != registration_id@,
        },
{
    let mut i: usize = 0;
    while i < registrations.len()
        invariant
            i <= registrations.len(),
            forall|k: int|
                0 <= k < i ==> (#[trigger] registrations@[k]).registration_id@ != registration_id@,
        decreases registrations.len() - i,
    {
        if text_eq(registrations[i].registration_id.as_str(), registration_id) {
            assert(is_registration(registrations@, registration_id@, i as int));
            return Some(&registrations[i]);
        }
        i += 1;
    }
    None
}

// ---- endpoints ----

/// Where a provider is reached.
#[derive(Debug, PartialEq, Eq)]
pub struct Endpoints {
    pub authorization: String,
    pub token: String,
    pub user_info: String,
}

/// How the endpoints of a provider are found out.
#[derive(Debug, PartialEq, Eq)]
pub enum EndpointPlan {
    /// They are configured.
    Known(Endpoints),
    /// They have to be asked for, at this URL.
    Discover(String),
    /// They cannot be found out.
    Unknown,
}

/// The index behind the last character that is no slash.
pub open spec fn end_without_slashes(s: Seq<char>) -> int
    decreases s.len(),
{
    if s.len() > 0 && s.last() == '/' {
        end_without_slashes(s.drop_last())
    } else {
        s.len() as int
    }
}

/// Where a provider publishes its endpoints.
pub open spec fn discovery_url(issuer: Seq<char>) -> Seq<char> {
    issuer.take(end_without_slashes(issuer)) + "/.well-known/openid-configuration"@
}

/// Endpoints are asked for below the issuer, however many slashes its address ends with.
pub proof fn endpoints_are_published_below_the_issuer(issuer: Seq<char>)
    ensures
        issuer.len() > 0 && issuer.last() != '/' ==> discovery_url(issuer) == issuer
            + "/.well-known/openid-configuration"@,
        discovery_url(issuer + seq!['/']) == discovery_url(issuer),
{
    lemma_end_without_slashes(issuer);
    let slashed = issuer + seq!['/'];
    assert(slashed.drop_last() =~= issuer);
    assert(slashed.take(end_without_slashes(issuer)) =~= issuer.take(end_without_slashes(issuer)));
    if issuer.len() > 0 && issuer.last() != '/' {
        assert(issuer.take(issuer.len() as int) =~= issuer);
    }
}

proof fn lemma_end_without_slashes(s: Seq<char>)
    ensures
        0 <= end_without_slashes(s) <= s.len(),
    decreases s.len(),
{
    if s.len() > 0 && s.last() == '/' {
        lemma_end_without_slashes(s.drop_last());
    }
}

fn without_trailing_slashes(s: &str) -> (r: String)
    ensures
        r@ == s@.take(end_without_slashes(s@)),
{
    let v: Vec<char> = chars_of(s);
    let mut n: usize = v.len();
    assert(v@.take(v@.len() as int) =~= v@);
    while n > 0 && v[n - 1] == '/'
        invariant
            n <= v.len(),
            end_without_slashes(v@) == end_without_slashes(v@.take(n as int)),
        decreases n,
    {
        assert(v@.take(n as int).drop_last() =~= v@.take(n as int - 1));
        n -= 1;
    }
    assert(n > 0 ==> v@.take(n as int).last() == v@[n as int - 1]);
    assert(v@.take(n as int) =~= v@.subrange(0, n as int));
    string_of(&v, 0, n)
}

/// Plans how to find out a provider's endpoints: all from the configuration if it has all of them,
/// else by discovery at the issuer.
pub fn plan_endpoints(r: &OAuth2ClientRegistration) -> (plan: EndpointPlan)
    ensures
        match plan {
            EndpointPlan::Known(e) => r.authorization_uri == Some(e.authorization) && r.token_uri
                == Some(e.token) && r.user_info_uri == Some(e.user_info),
            EndpointPlan::Discover(url) => !(r.authorization_uri is Some && r.token_uri is Some
                && r.user_info_uri is Some) && r.issuer_uri is Some && url@ == discovery_url(
                r.issuer_uri->0@,
            ),
            EndpointPlan::Unknown => !(r.authorization_uri is Some && r.token_uri is Some
                && r.user_info_uri is Some) && r.issuer_uri is None,
        },
{
    match (&r.authorization_uri, &r.token_uri, &r.user_info_uri) {
        (Some(a), Some(t), Some(u)) => {
            return EndpointPlan::Known(
                Endpoints { authorization: a.clone(), token: t.clone(), user_info: u.clone() },
            );
        },
        _ => {},
    }
    match &r.issuer_uri {
        Some(issuer) => {
            let mut url: String = without_trailing_slashes(issuer.as_str());
            url.append("/.well-known/openid-configuration");
            EndpointPlan::Discover(url)
        },
        None => EndpointPlan::Unknown,
    }
}

fn configured_or(configured: &Option<String>, discovered: String) -> (r: String)
    ensures
        r == (match configured {
            Some(c) => *c,
            None => discovered,
        }),
{
    match configured {
        Some(c) => c.clone(),
        None => discovered,
    }
}

/// The endpoints of a provider after discovery: what is configured comes first.
pub fn merge_endpoints(r: &OAuth2ClientRegistration, discovered: Endpoints) -> (e: Endpoints)
    ensures
        e.authorization == (match r.authorization_uri {
            Some(c) => c,
            None => discovered.authorization,
        }),
        e.token == (match r.token_uri {
            Some(c) => c,
            None => discovered.token,
        }),
        e.user_info == (match r.user_info_uri {
            Some(c) => c,
            None => discovered.user_info,
        }),
{
    Endpoints {
        authorization: configured_or(&r.authorization_uri, discovered.authorization),
        token: configured_or(&r.token_uri, discovered.token),
        user_info: configured_or(&r.user_info_uri, discovered.user_info),
    }
}

// ---- sending a user to the provider ----

/// Where the provider sends a user back to.
pub open spec fn redirect_back(r: OAuth2ClientRegistration, base: Seq<char>) -> Seq<char> {
    match r.redirect_uri {
        Some(uri) => uri@,
        None => base + "/login/oauth2/code/"@ + r.registration_id@,
    }
}

/// Where the provider sends a user back to: as configured, or to this server.
pub fn redirect_uri(r: &OAuth2ClientRegistration, base: &str) -> (uri: String)
    ensures
        uri@ == redirect_back(*r, base@),
{
    match &r.redirect_uri {
        Some(uri) => uri.clone(),
        None => {
            let mut uri: String = base.to_owned();
            uri.append("/login/oauth2/code/");
            uri.append(r.registration_id.as_str());
            uri
        },
    }
}

/// A text as it is written in a query.
pub open spec fn in_query(s: Seq<char>) -> Seq<char> {
    crate::url::percent_encoded(crate::url::UrlPart::Anywhere, vstd::utf8::encode_utf8(s))
}

/// Where a user is sent to sign in.
pub open spec fn authorization_location(
    r: OAuth2ClientRegistration,
    endpoint: Seq<char>,
    base: Seq<char>,
    state_key: Seq<char>,
) -> Seq<char> {
    endpoint + "?response_type=code&client_id="@ + in_query(r.client_id@) + "&scope="@ + in_query(
        crate::text::joined(r.scopes.deep_view(), " "@),
    ) + "&state="@ + state_key + "&redirect_uri="@ + in_query(redirect_back(r, base))
}

/// A user is sent to the provider's own endpoint, to get a code for this client, with the scopes that
/// are configured, the key of this sign-in, and the way back to this server.
pub proof fn user_is_sent_to_the_provider(
    r: OAuth2ClientRegistration,
    endpoint: Seq<char>,
    base: Seq<char>,
    state_key: Seq<char>,
)
    ensures
        authorization_location(r, endpoint, base, state_key).take(endpoint.len() as int) == endpoint,
        crate::text::contains_text(
            authorization_location(r, endpoint, base, state_key),
            "?response_type=code&client_id="@ + in_query(r.client_id@) + "&scope="@,
        ),
        crate::text::contains_text(
            authorization_location(r, endpoint, base, state_key),
            "&scope="@ + in_query(crate::text::joined(r.scopes.deep_view(), " "@)) + "&state="@,
        ),
        crate::text::contains_text(
            authorization_location(r, endpoint, base, state_key),
            "&state="@ + state_key + "&redirect_uri="@,
        ),
        r.redirect_uri is Some ==> crate::text::contains_text(
            authorization_location(r, endpoint, base, state_key),
            "&redirect_uri="@ + in_query(r.redirect_uri->0@),
        ),
        r.redirect_uri is None ==> crate::text::contains_text(
            authorization_location(r, endpoint, base, state_key),
            "&redirect_uri="@ + in_query(base + "/login/oauth2/code/"@ + r.registration_id@),
        ),
{
    lemma_query(
        endpoint,
        "?response_type=code&client_id="@,
        in_query(r.client_id@),
        "&scope="@,
        in_query(crate::text::joined(r.scopes.deep_view(), " "@)),
        "&state="@,
        state_key,
        "&redirect_uri="@,
        in_query(redirect_back(r, base)),
    );
}

proof fn lemma_query(
    e: Seq<char>,
    a: Seq<char>,
    x: Seq<char>,
    b: Seq<char>,
    y: Seq<char>,
    c: Seq<char>,
    z: Seq<char>,
    d: Seq<char>,
    w: Seq<char>,
)
    ensures
        ({
            let s = e + a + x + b + y + c + z + d + w;
            &&& s.take(e.len() as int) == e
            &&& crate::text::contains_text(s, a + x + b)
            &&& crate::text::contains_text(s, b + y + c)
            &&& crate::text::contains_text(s, c + z + d)
            &&& crate::text::contains_text(s, d + w)
        }),
{
    crate::text::lemma_in_the_middle(e, a, x, b);
    crate::text::lemma_in_the_middle(e + a + x, b, y, c);
    crate::text::lemma_in_the_middle(e + a + x + b + y, c, z, d);
    let s4 = e + a + x + b;
    let s5 = s4 + y;
    let s6 = s5 + c;
    let s7 = s6 + z;
    let s8 = s7 + d;
    crate::text::lemma_appended(s4, y, a + x + b);
    crate::text::lemma_appended(s5, c, a + x + b);
    crate::text::lemma_appended(s6, z, a + x + b);
    crate::text::lemma_appended(s7, d, a + x + b);
    crate::text::lemma_appended(s8, w, a + x + b);
    crate::text::lemma_appended(s6, z, b + y + c);
    crate::text::lemma_appended(s7, d, b + y + c);
    crate::text::lemma_appended(s8, w, b + y + c);
    crate::text::lemma_appended(s8, w, c + z + d);
    crate::text::lemma_appended(s7, d + w, w);
    crate::text::lemma_regrouped(s7, d, w);
    assert((s8 + w).take(e.len() as int) =~= e);
}

/// Writes the address at which a user signs in.
pub fn authorization_url(
    r: &OAuth2ClientRegistration,
    endpoint: &str,
    base: &str,
    state_key: &str,
) -> (url: String)
    ensures
        url@ == authorization_location(*r, endpoint@, base@, state_key@),
{
    let mut url: String = endpoint.to_owned();
    url.append("?response_type=code&client_id=");
    url.append(urlencoding(r.client_id.as_str()).as_str());
    url.append("&scope=");
    url.append(urlencoding(join(&r.scopes, " ").as_str()).as_str());
    url.append("&state=");
    url.append(state_key);
    url.append("&redirect_uri=");
    url.append(urlencoding(redirect_uri(r, base).as_str()).as_str());
    url
}

/// A hexadecimal digit in lower case.
pub open spec fn is_lower_hex(c: char) -> bool {
    '0' <= c <= '9' || 'a' <= c <= 'f'
}

/// Whether a text is a random UUID, written with hyphens: groups of eight, four, four, four and
/// twelve digits, of which one marks the version and one the variant.
pub open spec fn is_random_uuid(s: Seq<char>) -> bool {
    &&& s.len() == 36
    &&& forall|i: int|
        0 <= i < 36 ==> if i == 8 || i == 13 || i == 18 || i == 23 {
            #[trigger] s[i] == '-'
        } else {
            is_lower_hex(s[i])
        }
    &&& s[14] == '4'
    &&& (s[19] == '8' || s[19] == '9' || s[19] == 'a' || s[19] == 'b')
}

/// `uuid::Uuid::new_v4`, written by its `Display`: with hyphens and in lower case. It is random, but
/// for the digits that mark its version and its variant.
#[verifier::external_body]
pub(crate) fn random_uuid() -> (r: String)
    ensures
        is_random_uuid(r@),
{
    uuid::Uuid::new_v4().to_string()
}

/// A key under which a sign-in is remembered until the user comes back.
pub fn new_state_key() -> (r: String)
    ensures
        is_random_uuid(r@),
{
    random_uuid()
}

// ---- sign-ins that have begun ----

/// `moka::sync::Cache`.
#[verifier::external_type_specification]
#[verifier::external_body]
#[verifier::reject_recursive_types(K)]
#[verifier::reject_recursive_types(V)]
#[verifier::reject_recursive_types(S)]
pub struct ExCache<K, V, S>(moka::sync::Cache<K, V, S>);

/// What was put into a cache and was not taken out since. The cache may have given up some of it.
pub uninterp spec fn put_into(cache: moka::sync::Cache<String, String>) -> Map<Seq<char>, Seq<char>>;

/// For how many seconds a cache keeps what is not used: the time to idle that it was built with.
pub uninterp spec fn idle_limit(cache: moka::sync::Cache<String, String>) -> u64;

/// `moka::sync::Cache::builder` with a time to idle: an empty cache, which gives up what was not used
/// for so many seconds.
#[verifier::external_body]
fn new_cache(idle_seconds: u64) -> (r: moka::sync::Cache<String, String>)
    requires
        idle_seconds <= 31_536_000_000,
    ensures
        forall|key: Seq<char>| !put_into(r).contains_key(key),
        idle_limit(r) == idle_seconds,
{
    let idle = std::time::Duration::from_secs(idle_seconds);
    moka::sync::Cache::builder().time_to_idle(idle).build()
}

/// `moka::sync::Cache::insert`: puts a value under a key, in place of what was there.
#[verifier::external_body]
fn cache_insert(cache: &mut moka::sync::Cache<String, String>, key: &str, value: &str)
    ensures
        put_into(*final(cache)) == put_into(*old(cache)).insert(key@, value@),
        idle_limit(*final(cache)) == idle_limit(*old(cache)),
{
    cache.insert(key.to_string(), value.to_string());
}

/// `moka::sync::Cache::remove`: takes out what is under a key. It gives back nothing but what was put
/// there. That it gives back what was put there cannot be said: the cache gives it up in time.
#[verifier::external_body]
fn cache_remove(cache: &mut moka::sync::Cache<String, String>, key: &str) -> (r: Option<String>)
    ensures
        put_into(*final(cache)) == put_into(*old(cache)).remove(key@),
        idle_limit(*final(cache)) == idle_limit(*old(cache)),
        r is Some ==> put_into(*old(cache)).contains_key(key@) && r->0@ == put_into(
            *old(cache),
        )[key@],
{
    cache.remove(key)
}

/// For how many seconds a sign-in is remembered.
pub const STATE_SECONDS: u64 = 600;

/// The sign-ins that have begun: for each key that was given out, the provider that it is for.
pub struct SignInStates {
    cache: moka::sync::Cache<String, String>,
}

impl View for SignInStates {
    type V = Map<Seq<char>, Seq<char>>;

    /// The keys that were given out and did not come back yet, with their providers. Some may be
    /// forgotten by now.
    closed spec fn view(&self) -> Map<Seq<char>, Seq<char>> {
        put_into(self.cache)
    }
}

/// Whether a key that comes back is answered so: it is given out no more, whatever comes of it, and
/// the provider that is remembered for it, if one still is, is the one that it was given out for.
pub open spec fn is_taken(
    before: Map<Seq<char>, Seq<char>>,
    state: Option<Seq<char>>,
    remembered: Option<Seq<char>>,
    after: Map<Seq<char>, Seq<char>>,
) -> bool {
    match state {
        Some(s) => after == before.remove(s) && (remembered is Some ==> before.contains_key(s)
            && remembered == Some(before[s])),
        None => after == before && remembered is None,
    }
}

impl SignInStates {
    /// For how many seconds a sign-in that has begun is remembered.
    pub closed spec fn seconds(&self) -> u64 {
        idle_limit(self.cache)
    }

    /// No sign-in has begun. One that begins is remembered for ten minutes.
    pub fn new() -> (r: SignInStates)
        ensures
            r.seconds() == STATE_SECONDS,
            r@ == Map::<Seq<char>, Seq<char>>::empty(),
    {
        let r: SignInStates = SignInStates { cache: new_cache(STATE_SECONDS) };
        assert(r@ =~= Map::<Seq<char>, Seq<char>>::empty());
        r
    }

    /// Begins a sign-in with a provider: the new key under which it is remembered.
    pub fn begin(&mut self, registration_id: &str) -> (r: String)
        ensures
            is_random_uuid(r@),
            final(self)@ == old(self)@.insert(r@, registration_id@),
            final(self).seconds() == old(self).seconds(),
    {
        let key: String = new_state_key();
        cache_insert(&mut self.cache, key.as_str(), registration_id);
        key
    }

    /// Takes the provider that is remembered for the key with which a user comes back.
    pub fn take(&mut self, state: &Option<String>) -> (r: Option<String>)
        ensures
            is_taken(old(self)@, state.deep_view(), r.deep_view(), final(self)@),
            final(self).seconds() == old(self).seconds(),
    {
        match state {
            Some(s) => cache_remove(&mut self.cache, s.as_str()),
            None => None,
        }
    }
}

// ---- the user comes back ----

/// What a provider tells about a user.
#[derive(Debug, PartialEq, Eq)]
pub struct UserInfoClaims {
    pub email: Option<String>,
    pub email_verified: Option<bool>,
}

/// One of a GitHub user's addresses.
#[derive(Debug, PartialEq, Eq)]
pub struct GithubEmail {
    pub email: Option<String>,
    pub primary: Option<bool>,
    pub verified: Option<bool>,
}

/// What happened since a user came back: each step as far as it was taken, with what came of it.
#[derive(Debug, PartialEq, Eq)]
pub struct CallbackRun {
    /// The provider for which the given state was remembered, if it was.
    pub remembered: Option<String>,
    pub code: Option<String>,
    /// The provider's endpoints for tokens and user info, or nothing where they are unknown.
    pub endpoints: Option<Option<(String, String)>>,
    /// The access token, none, or why the exchange failed.
    pub token: Option<Result<Option<String>, String>>,
    /// What the provider tells about the user, or why it could not be asked.
    pub claims: Option<Result<UserInfoClaims, String>>,
    /// The user's addresses, or nothing where they could not be asked for.
    pub github_emails: Option<Option<Vec<GithubEmail>>>,
    /// Whether there is a user with the address.
    pub user_found: Option<bool>,
    /// Whether the user that was created is there, or why none was created.
    pub user_created: Option<Result<bool, String>>,
}

/// How a provider and the server are set up.
#[derive(Debug, PartialEq, Eq)]
pub struct CallbackSettings {
    pub registration_id: String,
    pub oidc: bool,
    pub scopes: Vec<String>,
    pub oidc_email_verification: bool,
    pub account_creation: bool,
}

/// What to do next for a user who came back.
#[derive(Debug, PartialEq, Eq)]
pub enum CallbackAction {
    ResolveEndpoints,
    ExchangeToken { token_uri: String, code: String },
    LoadUserInfo { user_info_uri: String, access_token: String },
    LoadGithubEmails { url: String, access_token: String },
    FindUser { email: String },
    CreateUser { email: String },
    /// The user is signed in.
    SignIn,
    /// The user is sent back with an error code, and the error is recorded.
    Refuse { error_code: &'static str, error: Option<String> },
    /// The server is at fault.
    ServerError,
}

/// A [`CallbackAction`] by its texts.
#[verifier::ext_equal]
pub enum ActionView {
    ResolveEndpoints,
    ExchangeToken { token_uri: Seq<char>, code: Seq<char> },
    LoadUserInfo { user_info_uri: Seq<char>, access_token: Seq<char> },
    LoadGithubEmails { url: Seq<char>, access_token: Seq<char> },
    FindUser { email: Seq<char> },
    CreateUser { email: Seq<char> },
    SignIn,
    Refuse { error_code: Seq<char>, error: Option<Seq<char>> },
    ServerError,
}

impl DeepView for CallbackAction {
    type V = ActionView;

    open spec fn deep_view(&self) -> ActionView {
        match self {
            CallbackAction::ResolveEndpoints => ActionView::ResolveEndpoints,
            CallbackAction::ExchangeToken { token_uri, code } => ActionView::ExchangeToken {
                token_uri: token_uri@,
                code: code@,
            },
            CallbackAction::LoadUserInfo { user_info_uri, access_token } => ActionView::LoadUserInfo {
                user_info_uri: user_info_uri@,
                access_token: access_token@,
            },
            CallbackAction::LoadGithubEmails { url, access_token } => ActionView::LoadGithubEmails {
                url: url@,
                access_token: access_token@,
            },
            CallbackAction::FindUser { email } => ActionView::FindUser { email: email@ },
            CallbackAction::CreateUser { email } => ActionView::CreateUser { email: email@ },
            CallbackAction::SignIn => ActionView::SignIn,
            CallbackAction::Refuse { error_code, error } => ActionView::Refuse {
                error_code: error_code@,
                error: error.deep_view(),
            },
            CallbackAction::ServerError => ActionView::ServerError,
        }
    }
}

/// A text that is given and not empty.
pub open spec fn non_empty(s: Option<String>) -> Option<Seq<char>> {
    match s {
        Some(t) => if t@.len() > 0 {
            Some(t@)
        } else {
            None
        },
        None => None,
    }
}

/// Whether the addresses of a user can be asked for: GitHub keeps them apart from the profile.
pub open spec fn has_email_list(s: CallbackSettings) -> bool {
    crate::text::ascii_lowered(s.registration_id@) == crate::text::ascii_lowered("github"@) && (
    s.scopes.deep_view().contains("user:email"@) || s.scopes.deep_view().contains("user"@))
}

/// The first address that is verified and the user's primary one.
pub open spec fn primary_email(emails: Seq<GithubEmail>) -> Option<Seq<char>>
    decreases emails.len(),
{
    if emails.len() == 0 {
        None
    } else if emails[0].verified == Some(true) && emails[0].primary == Some(true) {
        non_empty(emails[0].email)
    } else {
        primary_email(emails.drop_first())
    }
}

/// Why no address was accepted, or the address; nothing where the list of addresses is still to be
/// asked for.
pub open spec fn accepted_email(
    s: CallbackSettings,
    claims: UserInfoClaims,
    emails: Option<Option<Seq<GithubEmail>>>,
) -> Option<Result<Seq<char>, Seq<char>>> {
    match non_empty(claims.email) {
        Some(email) => if s.oidc && s.oidc_email_verification && claims.email_verified is None {
            Some(Err("ERR_1027"@))
        } else if s.oidc && s.oidc_email_verification && claims.email_verified == Some(false) {
            Some(Err("ERR_1026"@))
        } else {
            Some(Ok(email))
        },
        None => if s.oidc {
            Some(Err("ERR_1028"@))
        } else if has_email_list(s) {
            match emails {
                None => None,
                Some(None) => Some(Err("server_error"@)),
                Some(Some(list)) => match primary_email(list) {
                    Some(email) => Some(Ok(email)),
                    None => Some(Err("ERR_1024"@)),
                },
            }
        } else {
            Some(Err("ERR_1024"@))
        },
    }
}

/// The list of addresses as far as it was asked for.
pub open spec fn email_list(run: CallbackRun) -> Option<Option<Seq<GithubEmail>>> {
    match run.github_emails {
        None => None,
        Some(None) => Some(None),
        Some(Some(v)) => Some(Some(v@)),
    }
}

/// What is done once the address is known: the user is looked for, and created if there is none and
/// the server lets new users in.
pub open spec fn user_action(s: CallbackSettings, run: CallbackRun, email: Seq<char>) -> ActionView {
    match (run.user_found, run.user_created) {
        (None, _) => ActionView::FindUser { email },
        (Some(true), _) => ActionView::SignIn,
        (Some(false), None) => if s.account_creation {
            ActionView::CreateUser { email }
        } else {
            ActionView::Refuse { error_code: "ERR_1025"@, error: Some("user does not exist"@) }
        },
        (Some(false), Some(Ok(there))) => if !s.account_creation {
            ActionView::Refuse { error_code: "ERR_1025"@, error: Some("user does not exist"@) }
        } else if there {
            ActionView::SignIn
        } else {
            ActionView::ServerError
        },
        (Some(false), Some(Err(e))) => if !s.account_creation {
            ActionView::Refuse { error_code: "ERR_1025"@, error: Some("user does not exist"@) }
        } else {
            ActionView::Refuse { error_code: "server_error"@, error: Some(e@) }
        },
    }
}

/// What is done once there is an access token: the provider is asked about the user, and where it
/// keeps addresses apart, for those too.
pub open spec fn profile_action(
    s: CallbackSettings,
    run: CallbackRun,
    user_info_uri: Seq<char>,
    access_token: Seq<char>,
) -> ActionView {
    match run.claims {
        None => ActionView::LoadUserInfo { user_info_uri, access_token },
        Some(Err(e)) => ActionView::Refuse {
            error_code: "invalid_user_info_response"@,
            error: Some(e@),
        },
        Some(Ok(claims)) => match accepted_email(s, claims, email_list(run)) {
            None => ActionView::LoadGithubEmails { url: user_info_uri + "/emails"@, access_token },
            Some(Err(code)) => ActionView::Refuse { error_code: code, error: None },
            Some(Ok(email)) => user_action(s, run, email),
        },
    }
}

/// What is done for a user who came back: the state must be the one that was remembered for the
/// provider, there must be a code, the endpoints must be known and the code must be good for a token.
pub open spec fn callback_action(s: CallbackSettings, run: CallbackRun) -> ActionView {
    if !(run.remembered is Some && run.remembered->0@ == s.registration_id@) {
        ActionView::Refuse { error_code: "invalid_state"@, error: Some("invalid state"@) }
    } else {
        match non_empty(run.code) {
            None => ActionView::Refuse { error_code: "invalid_request"@, error: Some("missing code"@) },
            Some(code) => match run.endpoints {
                None => ActionView::ResolveEndpoints,
                Some(None) => ActionView::Refuse {
                    error_code: "invalid_request"@,
                    error: Some("cannot resolve endpoints"@),
                },
                Some(Some((token_uri, user_info_uri))) => match run.token {
                    None => ActionView::ExchangeToken { token_uri: token_uri@, code },
                    Some(Err(e)) => ActionView::Refuse {
                        error_code: "invalid_token_response"@,
                        error: Some(e@),
                    },
                    Some(Ok(t)) => match non_empty(t) {
                        None => ActionView::Refuse { error_code: "invalid_token_response"@, error: None },
                        Some(access_token) => profile_action(
                            s,
                            run,
                            user_info_uri@,
                            access_token,
                        ),
                    },
                },
            },
        }
    }
}

fn refuse(code: &'static str, error: Option<String>) -> (r: CallbackAction)
    ensures
        r.deep_view() == (ActionView::Refuse { error_code: code@, error: error.deep_view() }),
{
    CallbackAction::Refuse { error_code: code, error }
}

fn take_non_empty<'a>(s: &'a Option<String>) -> (r: Option<&'a String>)
    ensures
        match r {
            Some(t) => *s == Some(*t) && non_empty(*s) == Some(t@),
            None => non_empty(*s) is None,
        },
{
    match s {
        Some(t) => if t.as_str().is_empty() {
            None
        } else {
            Some(t)
        },
        None => None,
    }
}

fn find_primary_email(emails: &Vec<GithubEmail>) -> (r: Option<String>)
    ensures
        r.deep_view() == primary_email(emails@),
{
    let mut i: usize = 0;
    assert(emails@.skip(0) =~= emails@);
    while i < emails.len()
        invariant
            i <= emails.len(),
            primary_email(emails@) == primary_email(emails@.skip(i as int)),
        decreases emails.len() - i,
    {
        assert(emails@.skip(i as int)[0] == emails@[i as int]);
        assert(emails@.skip(i as int).drop_first() =~= emails@.skip(i as int + 1));
        let verified: bool = match emails[i].verified {
            Some(b) => b,
            None => false,
        };
        let primary: bool = match emails[i].primary {
            Some(b) => b,
            None => false,
        };
        if verified && primary {
            return match take_non_empty(&emails[i].email) {
                Some(e) => Some(e.clone()),
                None => None,
            };
        }
        i += 1;
    }
    None
}

/// Whether an address was accepted.
enum EmailStep {
    Accepted(String),
    Refused(&'static str),
    AskForList,
}

spec fn email_step(e: EmailStep) -> Option<Result<Seq<char>, Seq<char>>> {
    match e {
        EmailStep::Accepted(email) => Some(Ok(email@)),
        EmailStep::Refused(code) => Some(Err(code@)),
        EmailStep::AskForList => None,
    }
}

fn resolve_email(s: &CallbackSettings, claims: &UserInfoClaims, emails: &Option<Option<Vec<GithubEmail>>>) -> (r:
    EmailStep)
    ensures
        email_step(r) == accepted_email(
            *s,
            *claims,
            match *emails {
                None => None,
                Some(None) => Some(None),
                Some(Some(v)) => Some(Some(v@)),
            },
        ),
{
    match take_non_empty(&claims.email) {
        Some(email) => {
            if s.oidc && s.oidc_email_verification {
                match claims.email_verified {
                    None => {
                        return EmailStep::Refused("ERR_1027");
                    },
                    Some(false) => {
                        return EmailStep::Refused("ERR_1026");
                    },
                    Some(true) => {},
                }
            }
            EmailStep::Accepted(email.clone())
        },
        None => {
            if s.oidc {
                return EmailStep::Refused("ERR_1028");
            }
            let has_list: bool = eq_ignore_case(s.registration_id.as_str(), "github") && (has_text(
                &s.scopes,
                "user:email",
            ) || has_text(&s.scopes, "user"));
            if !has_list {
                return EmailStep::Refused("ERR_1024");
            }
            match emails {
                None => EmailStep::AskForList,
                Some(None) => EmailStep::Refused("server_error"),
                Some(Some(list)) => match find_primary_email(list) {
                    Some(email) => EmailStep::Accepted(email),
                    None => EmailStep::Refused("ERR_1024"),
                },
            }
        },
    }
}

fn next_user_action(s: &CallbackSettings, run: &CallbackRun, email: String) -> (r: CallbackAction)
    ensures
        r.deep_view() == user_action(*s, *run, email@),
{
    match run.user_found {
        None => CallbackAction::FindUser { email },
        Some(true) => CallbackAction::SignIn,
        Some(false) => {
            if !s.account_creation {
                return refuse("ERR_1025", Some("user does not exist".to_owned()));
            }
            match &run.user_created {
                None => CallbackAction::CreateUser { email },
                Some(Ok(there)) => if *there {
                    CallbackAction::SignIn
                } else {
                    CallbackAction::ServerError
                },
                Some(Err(e)) => refuse("server_error", Some(e.clone())),
            }
        },
    }
}

/// Decides what to do next for a user who came back from a provider.
pub fn callback(s: &CallbackSettings, run: &CallbackRun) -> (r: CallbackAction)
    ensures
        r.deep_view() == callback_action(*s, *run),
{
    let known: bool = match &run.remembered {
        Some(id) => text_eq(id.as_str(), s.registration_id.as_str()),
        None => false,
    };
    if !known {
        return refuse("invalid_state", Some("invalid state".to_owned()));
    }
    let code: &String = match take_non_empty(&run.code) {
        Some(c) => c,
        None => {
            return refuse("invalid_request", Some("missing code".to_owned()));
        },
    };
    let (token_uri, user_info_uri): (&String, &String) = match &run.endpoints {
        None => {
            return CallbackAction::ResolveEndpoints;
        },
        Some(None) => {
            return refuse("invalid_request", Some("cannot resolve endpoints".to_owned()));
        },
        Some(Some((t, u))) => (t, u),
    };
    let access_token: &String = match &run.token {
        None => {
            return CallbackAction::ExchangeToken {
                token_uri: token_uri.clone(),
                code: code.clone(),
            };
        },
        Some(Err(e)) => {
            return refuse("invalid_token_response", Some(e.clone()));
        },
        Some(Ok(t)) => match take_non_empty(t) {
            Some(t) => t,
            None => {
                return refuse("invalid_token_response", None);
            },
        },
    };
    let claims: &UserInfoClaims = match &run.claims {
        None => {
            return CallbackAction::LoadUserInfo {
                user_info_uri: user_info_uri.clone(),
                access_token: access_token.clone(),
            };
        },
        Some(Err(e)) => {
            return refuse("invalid_user_info_response", Some(e.clone()));
        },
        Some(Ok(c)) => c,
    };
    match resolve_email(s, claims, &run.github_emails) {
        EmailStep::AskForList => {
            let mut url: String = user_info_uri.clone();
            url.append("/emails");
            CallbackAction::LoadGithubEmails { url, access_token: access_token.clone() }
        },
        EmailStep::Refused(code) => refuse(code, None),
        EmailStep::Accepted(email) => next_user_action(s, run, email),
    }
}

/// A key that came back once is refused when it comes back again, whatever came of the first time and
/// whatever sign-ins began or ended in between.
pub proof fn state_is_accepted_at_most_once(
    s: CallbackSettings,
    run: CallbackRun,
    state: Seq<char>,
    before_first: Map<Seq<char>, Seq<char>>,
    first: Option<Seq<char>>,
    after_first: Map<Seq<char>, Seq<char>>,
    before_second: Map<Seq<char>, Seq<char>>,
    after_second: Map<Seq<char>, Seq<char>>,
)
    requires
        is_taken(before_first, Some(state), first, after_first),
        before_second.contains_key(state) ==> after_first.contains_key(state),
        is_taken(before_second, Some(state), run.remembered.deep_view(), after_second),
    ensures
        run.remembered is None,
        callback_action(s, run) == (ActionView::Refuse {
            error_code: "invalid_state"@,
            error: Some("invalid state"@),
        }),
{
}

/// A key is accepted only by the provider that it was given out for.
pub proof fn state_is_accepted_by_its_provider_only(
    s: CallbackSettings,
    run: CallbackRun,
    state: Option<Seq<char>>,
    before: Map<Seq<char>, Seq<char>>,
    after: Map<Seq<char>, Seq<char>>,
)
    requires
        is_taken(before, state, run.remembered.deep_view(), after),
        callback_action(s, run) != (ActionView::Refuse {
            error_code: "invalid_state"@,
            error: Some("invalid state"@),
        }),
    ensures
        state is Some,
        before.contains_key(state->0),
        before[state->0] == s.registration_id@,
{
}

/// Nobody is signed in, and nothing is asked of a provider, for a state that was not remembered for
/// it: the user is sent back with the error code of that alone.
pub proof fn unknown_state_is_refused(s: CallbackSettings, run: CallbackRun)
    requires
        !(run.remembered is Some && run.remembered->0@ == s.registration_id@),
    ensures
        callback_action(s, run) == (ActionView::Refuse {
            error_code: "invalid_state"@,
            error: Some("invalid state"@),
        }),
{
}

/// A user is signed in only with an access token and an address that the provider vouches for, and
/// only if they were there or the server lets new users in.
pub proof fn sign_in_needs_every_step(s: CallbackSettings, run: CallbackRun)
    requires
        callback_action(s, run) == ActionView::SignIn,
    ensures
        run.remembered is Some && run.remembered->0@ == s.registration_id@,
        non_empty(run.code) is Some,
        run.endpoints is Some && run.endpoints->0 is Some,
        run.token is Some && run.token->0 is Ok && non_empty(run.token->0->Ok_0) is Some,
        run.claims is Some && run.claims->0 is Ok,
        accepted_email(s, run.claims->0->Ok_0, email_list(run)) is Some,
        accepted_email(s, run.claims->0->Ok_0, email_list(run))->0 is Ok,
        run.user_found == Some(true) || (run.user_found == Some(false) && s.account_creation
            && run.user_created == Some(Ok::<bool, String>(true))),
{
}

proof fn lemma_primary_email(emails: Seq<GithubEmail>)
    ensures
        primary_email(emails) is Some ==> exists|i: int|
            0 <= i < emails.len() && (#[trigger] emails[i]).verified == Some(true)
                && emails[i].primary == Some(true) && emails[i].email is Some
                && emails[i].email->0@ == primary_email(emails)->0 && primary_email(emails)->0.len()
                > 0,
    decreases emails.len(),
{
    if emails.len() > 0 {
        if emails[0].verified == Some(true) && emails[0].primary == Some(true) {
        } else if primary_email(emails) is Some {
            let rest = emails.drop_first();
            lemma_primary_email(rest);
            let i = choose|i: int|
                0 <= i < rest.len() && (#[trigger] rest[i]).verified == Some(true)
                    && rest[i].primary == Some(true) && rest[i].email is Some && rest[i].email->0@
                    == primary_email(rest)->0 && primary_email(rest)->0.len() > 0;
            assert(emails[i + 1] == rest[i]);
        }
    }
}

/// Whether an address is one that the provider vouches for: the one that it tells, which it has to have
/// verified where that is asked for, or else the verified primary one of a GitHub user.
pub open spec fn is_vouched_for(s: CallbackSettings, run: CallbackRun, email: Seq<char>) -> bool {
    &&& email.len() > 0
    &&& run.claims is Some && run.claims->0 is Ok
    &&& {
        let claims = run.claims->0->Ok_0;
        ||| claims.email is Some && claims.email->0@ == email && (s.oidc
            && s.oidc_email_verification ==> claims.email_verified == Some(true))
        ||| !s.oidc && (claims.email is None || claims.email->0@.len() == 0)
            && run.github_emails is Some && run.github_emails->0 is Some && exists|i: int|
            0 <= i < run.github_emails->0->0@.len() && (
            #[trigger] run.github_emails->0->0@[i]).verified == Some(true)
                && run.github_emails->0->0@[i].primary == Some(true)
                && run.github_emails->0->0@[i].email is Some
                && run.github_emails->0->0@[i].email->0@ == email
    }
}

/// Whoever signs in is looked for, and made a user, by an address that the provider vouches for; a user
/// is only made where that is allowed, and where there is none with the address.
pub proof fn users_are_known_by_vouched_addresses(s: CallbackSettings, run: CallbackRun)
    ensures
        match callback_action(s, run) {
            ActionView::FindUser { email } => is_vouched_for(s, run, email) && run.user_found is None,
            ActionView::CreateUser { email } => is_vouched_for(s, run, email) && s.account_creation
                && run.user_found == Some(false),
            ActionView::SignIn => exists|email: Seq<char>| #[trigger] is_vouched_for(s, run, email),
            _ => true,
        },
{
    if run.claims is Some && run.claims->0 is Ok {
        let claims = run.claims->0->Ok_0;
        match email_list(run) {
            Some(Some(list)) => {
                lemma_primary_email(list);
            },
            _ => {},
        }
        match accepted_email(s, claims, email_list(run)) {
            Some(Ok(email)) => {
                match claims.email_verified {
                    Some(verified) => {
                        assert(verified || !verified);
                    },
                    None => {},
                }
                assert(is_vouched_for(s, run, email));
            },
            _ => {},
        }
    }
}

/// The code goes to the provider's token endpoint and nowhere else, and the access token that comes
/// back goes to the endpoint for the user's profile, or below it, and nowhere else.
pub proof fn secrets_go_to_their_endpoints(s: CallbackSettings, run: CallbackRun)
    ensures
        match callback_action(s, run) {
            ActionView::ExchangeToken { token_uri, code } => run.code is Some && code
                == run.code->0@ && run.endpoints is Some && run.endpoints->0 is Some && token_uri
                == (run.endpoints->0->0).0@,
            ActionView::LoadUserInfo { user_info_uri, access_token } => run.endpoints is Some
                && run.endpoints->0 is Some && user_info_uri == (run.endpoints->0->0).1@
                && run.token is Some && run.token->0 is Ok && run.token->0->Ok_0 is Some
                && access_token == run.token->0->Ok_0->0@,
            ActionView::LoadGithubEmails { url, access_token } => run.endpoints is Some
                && run.endpoints->0 is Some && url == (run.endpoints->0->0).1@ + "/emails"@
                && run.token is Some && run.token->0 is Ok && run.token->0->Ok_0 is Some
                && access_token == run.token->0->Ok_0->0@,
            _ => true,
        },
{
}

/// Whoever comes back as expected signs in: with the state that was given out for the provider, a code
/// that is exchanged for a token, a profile with an address that needs no more verification, and a
/// user with that address. Where there is no user yet, one is made if that is allowed, and else the
/// sign-in is refused.
pub proof fn expected_return_signs_in(s: CallbackSettings, run: CallbackRun)
    requires
        run.remembered is Some && run.remembered->0@ == s.registration_id@,
        run.code is Some && run.code->0@.len() > 0,
        run.endpoints is Some && run.endpoints->0 is Some,
        run.token is Some && run.token->0 is Ok && run.token->0->Ok_0 is Some
            && run.token->0->Ok_0->0@.len() > 0,
        run.claims is Some && run.claims->0 is Ok,
        run.claims->0->Ok_0.email is Some && run.claims->0->Ok_0.email->0@.len() > 0,
        s.oidc && s.oidc_email_verification ==> run.claims->0->Ok_0.email_verified == Some(true),
    ensures
        run.user_found is None ==> callback_action(s, run) == (ActionView::FindUser {
            email: run.claims->0->Ok_0.email->0@,
        }),
        run.user_found == Some(true) ==> callback_action(s, run) == ActionView::SignIn,
        run.user_found == Some(false) && s.account_creation && run.user_created is None
            ==> callback_action(s, run) == (ActionView::CreateUser {
            email: run.claims->0->Ok_0.email->0@,
        }),
        run.user_found == Some(false) && s.account_creation && run.user_created == Some(
            Ok::<bool, String>(true),
        ) ==> callback_action(s, run) == ActionView::SignIn,
        run.user_found == Some(false) && !s.account_creation ==> callback_action(s, run) == (
        ActionView::Refuse { error_code: "ERR_1025"@, error: Some("user does not exist"@) }),
{
}

/// A sign-in that goes wrong is refused with the code for what went wrong.
pub proof fn refusal_says_what_went_wrong(s: CallbackSettings, run: CallbackRun)
    requires
        run.remembered is Some && run.remembered->0@ == s.registration_id@,
    ensures
        non_empty(run.code) is None ==> callback_action(s, run) is Refuse && callback_action(
            s,
            run,
        )->error_code == "invalid_request"@,
        non_empty(run.code) is Some && run.endpoints == Some(None::<(String, String)>)
            ==> callback_action(s, run) is Refuse && callback_action(s, run)->error_code
            == "invalid_request"@,
        non_empty(run.code) is Some && run.endpoints is Some && run.endpoints->0 is Some
            && run.token is Some && (run.token->0 is Err || non_empty(run.token->0->Ok_0) is None)
            ==> callback_action(s, run) is Refuse && callback_action(s, run)->error_code
            == "invalid_token_response"@,
        non_empty(run.code) is Some && run.endpoints is Some && run.endpoints->0 is Some
            && run.token is Some && run.token->0 is Ok && non_empty(run.token->0->Ok_0) is Some
            && run.claims is Some ==> {
            &&& run.claims->0 is Err ==> callback_action(s, run) is Refuse && callback_action(
                s,
                run,
            )->error_code == "invalid_user_info_response"@
            &&& run.claims->0 is Ok && s.oidc && non_empty(run.claims->0->Ok_0.email) is None
                ==> callback_action(s, run) is Refuse && callback_action(s, run)->error_code
                == "ERR_1028"@
            &&& run.claims->0 is Ok && s.oidc && s.oidc_email_verification && non_empty(
                run.claims->0->Ok_0.email,
            ) is Some && run.claims->0->Ok_0.email_verified is None ==> callback_action(s, run)
                is Refuse && callback_action(s, run)->error_code == "ERR_1027"@
            &&& run.claims->0 is Ok && s.oidc && s.oidc_email_verification && non_empty(
                run.claims->0->Ok_0.email,
            ) is Some && run.claims->0->Ok_0.email_verified == Some(false) ==> callback_action(
                s,
                run,
            ) is Refuse && callback_action(s, run)->error_code == "ERR_1026"@
            &&& run.claims->0 is Ok && !s.oidc && non_empty(run.claims->0->Ok_0.email) is None
                && !has_email_list(s) ==> callback_action(s, run) is Refuse && callback_action(
                s,
                run,
            )->error_code == "ERR_1024"@
        },
{
}

/// A user of GitHub without an address in their profile is asked for the list of their addresses, if the
/// scopes let it be read; of the list the verified primary one counts. No other provider has such a list.
pub proof fn addresses_are_asked_of_github(
    s: CallbackSettings,
    claims: UserInfoClaims,
    emails: Seq<GithubEmail>,
    i: int,
)
    requires
        !s.oidc,
        non_empty(claims.email) is None,
    ensures
        s.registration_id@ == "github"@ && (s.scopes.deep_view().contains("user:email"@)
            || s.scopes.deep_view().contains("user"@)) ==> accepted_email(s, claims, None) is None
            && accepted_email(s, claims, Some(None)) == Some(
            Err::<Seq<char>, Seq<char>>("server_error"@),
        ),
        crate::text::ascii_lowered(s.registration_id@) != crate::text::ascii_lowered("github"@) || (
        !s.scopes.deep_view().contains("user:email"@) && !s.scopes.deep_view().contains("user"@))
            ==> accepted_email(s, claims, None) == Some(Err::<Seq<char>, Seq<char>>("ERR_1024"@)),
        s.registration_id@ == "github"@ && s.scopes.deep_view().contains("user:email"@) && 0 <= i
            < emails.len() && emails[i].verified == Some(true) && emails[i].primary == Some(true)
            && non_empty(emails[i].email) is Some && (forall|k: int|
            0 <= k < i ==> (#[trigger] emails[k]).verified != Some(true) || emails[k].primary != Some(
                true,
            )) ==> accepted_email(s, claims, Some(Some(emails))) == Some(
            Ok::<Seq<char>, Seq<char>>(emails[i].email->0@),
        ),
        s.registration_id@ == "github"@ && s.scopes.deep_view().contains("user:email"@) && (forall|
            k: int,
        |
            0 <= k < emails.len() ==> (#[trigger] emails[k]).verified != Some(true) || emails[k].primary
                != Some(true)) ==> accepted_email(s, claims, Some(Some(emails))) == Some(
            Err::<Seq<char>, Seq<char>>("ERR_1024"@),
        ),
{
    if 0 <= i < emails.len() && (forall|k: int|
        0 <= k < i ==> (#[trigger] emails[k]).verified != Some(true) || emails[k].primary != Some(true)) {
        lemma_primary_at(emails, i);
    }
    if forall|k: int|
        0 <= k < emails.len() ==> (#[trigger] emails[k]).verified != Some(true) || emails[k].primary
            != Some(true) {
        lemma_no_primary(emails);
    }
}

proof fn lemma_primary_at(emails: Seq<GithubEmail>, i: int)
    requires
        0 <= i < emails.len(),
        forall|k: int|
            0 <= k < i ==> (#[trigger] emails[k]).verified != Some(true) || emails[k].primary != Some(
                true,
            ),
    ensures
        emails[i].verified == Some(true) && emails[i].primary == Some(true) ==> primary_email(emails)
            == non_empty(emails[i].email),
    decreases i,
{
    if i > 0 {
        let rest = emails.drop_first();
        assert forall|k: int| 0 <= k < i - 1 implies (#[trigger] rest[k]).verified != Some(true)
            || rest[k].primary != Some(true) by {
            assert(rest[k] == emails[k + 1]);
        }
        assert(emails[0].verified != Some(true) || emails[0].primary != Some(true));
        lemma_primary_at(rest, i - 1);
    }
}

proof fn lemma_no_primary(emails: Seq<GithubEmail>)
    requires
        forall|k: int|
            0 <= k < emails.len() ==> (#[trigger] emails[k]).verified != Some(true) || emails[k].primary
                != Some(true),
    ensures
        primary_email(emails) is None,
    decreases emails.len(),
{
    if emails.len() > 0 {
        let rest = emails.drop_first();
        assert forall|k: int| 0 <= k < rest.len() implies (#[trigger] rest[k]).verified != Some(true)
            || rest[k].primary != Some(true) by {
            assert(rest[k] == emails[k + 1]);
        }
        lemma_no_primary(rest);
    }
}

/// An address that an OpenID provider does not vouch for is not accepted where the server insists.
pub proof fn unverified_email_is_refused(
    s: CallbackSettings,
    claims: UserInfoClaims,
    emails: Option<Option<Seq<GithubEmail>>>,
)
    requires
        s.oidc,
        s.oidc_email_verification,
        claims.email_verified != Some(true),
    ensures
        accepted_email(s, claims, emails) is Some,
        accepted_email(s, claims, emails)->0 is Err,
{
    match claims.email_verified {
        Some(verified) => {
            assert(!verified);
        },
        None => {},
    }
}

/// Where a user is sent back to with an error code.
pub fn refusal_location(code: &str) -> (r: String)
    ensures
        r@ == "/login?server_redirect=Y&error="@ + code@,
{
    let mut r: String = "/login?server_redirect=Y&error=".to_owned();
    r.append(code);
    r
}

/// The cookie that carries a session, as it is sent.
pub open spec fn session_cookie_text(cookie_name: Seq<char>, session_id: Seq<char>) -> Seq<char> {
    cookie_name + "="@ + session_id + "; Path=/; HttpOnly; SameSite=Lax"@
}

/// A client that sends back the cookie that it got is known by its session, and after it got the cookie
/// that ends the session it is known by none.
pub proof fn session_is_known_by_its_cookie(cookie_name: Seq<char>, session_id: Seq<char>)
    requires
        cookie_name.len() > 0,
        !crate::text::is_space(cookie_name[0]),
        !cookie_name.contains('='),
        !cookie_name.contains(';'),
        !session_id.contains(';'),
        session_id.len() > 0,
        !crate::text::is_space(session_id.last()),
    ensures
        crate::login::cookie_in(session_cookie_text(cookie_name, session_id), cookie_name) == Some(
            session_id,
        ),
        crate::login::cookie_in(crate::login::expired_cookie_text(cookie_name), cookie_name) == Some(
            Seq::<char>::empty(),
        ),
{
    reveal_strlit("=");
    reveal_strlit("; Path=/; HttpOnly; SameSite=Lax");
    reveal_strlit("=; Path=/; Max-Age=0; HttpOnly; SameSite=Lax");
    let none = Seq::<char>::empty();
    let pair = cookie_name + seq!['='] + session_id;
    crate::login::cookie_is_read_by_its_name(none, cookie_name, session_id, none, none);
    assert(none + pair + none =~= pair);
    assert forall|k: int| 0 <= k < pair.len() implies #[trigger] pair[k] != ';' by {
        if k < cookie_name.len() {
            assert(cookie_name.contains(pair[k]));
        } else if k > cookie_name.len() {
            assert(session_id.contains(session_id[k - cookie_name.len() - 1]));
        }
    }
    let rest = "; Path=/; HttpOnly; SameSite=Lax"@.skip(1);
    crate::login::first_cookie_of_a_name_is_read(pair, rest, cookie_name);
    assert(pair + seq![';'] + rest =~= session_cookie_text(cookie_name, session_id));
    let ended = cookie_name + seq!['='] + none;
    crate::login::cookie_is_read_by_its_name(none, cookie_name, none, none, none);
    assert(none + ended + none =~= ended);
    assert forall|k: int| 0 <= k < ended.len() implies #[trigger] ended[k] != ';' by {
        if k < cookie_name.len() {
            assert(cookie_name.contains(ended[k]));
        }
    }
    let left = "=; Path=/; Max-Age=0; HttpOnly; SameSite=Lax"@.skip(2);
    crate::login::first_cookie_of_a_name_is_read(ended, left, cookie_name);
    assert(ended + seq![';'] + left =~= crate::login::expired_cookie_text(cookie_name));
}

/// The cookie that carries a session.
pub fn session_cookie(cookie_name: &str, session_id: &str) -> (r: String)
    ensures
        r@ == session_cookie_text(cookie_name@, session_id@),
{
    let mut r: String = cookie_name.to_owned();
    r.append("=");
    r.append(session_id);
    r.append("; Path=/; HttpOnly; SameSite=Lax");
    r
}

/// Under which name a sign-in is recorded.
pub fn activity_source(client_name: &str) -> (r: String)
    ensures
        r@ == "OAuth2:"@ + client_name@,
{
    let mut r: String = "OAuth2:".to_owned();
    r.append(client_name);
    r
}

// ---- new users ----

/// The letter or digit for a byte.
pub open spec fn password_char(b: u8) -> char {
    let v = b % 62;
    if v < 26 {
        (65 + v) as char
    } else if v < 52 {
        (97 + v - 26) as char
    } else {
        (48 + v - 52) as char
    }
}

/// Passwords are made of all letters and digits: bytes that leave the same rest give the same one, and
/// any others do not.
pub proof fn bytes_give_letters_and_digits(a: u8, b: u8)
    ensures
        crate::kobo::is_alphanumeric(password_char(a)),
        password_char(a) == password_char(b) <==> a % 62 == b % 62,
{
}

/// Makes a password of the first twelve bytes.
pub fn password_of(bytes: &Vec<u8>) -> (r: String)
    requires
        bytes.len() >= 12,
    ensures
        r@ == Seq::new(12, |i: int| password_char(bytes@[i])),
{
    let mut r: String = String::new();
    let mut i: usize = 0;
    while i < 12
        invariant
            i <= 12 <= bytes.len(),
            r@.len() == i,
            forall|k: int| 0 <= k < i ==> #[trigger] r@[k] == password_char(bytes@[k]),
        decreases 12 - i,
    {
        let v: u8 = bytes[i] % 62;
        let c: char = if v < 26 {
            (65 + v) as char
        } else if v < 52 {
            (97 + v - 26) as char
        } else {
            (48 + v - 52) as char
        };
        r.push(c);
        i += 1;
    }
    assert(r@ =~= Seq::new(12, |i: int| password_char(bytes@[i])));
    r
}

/// `uuid::Uuid::new_v4`, by its sixteen bytes: random, but for the bits that mark its version and
/// its variant.
#[verifier::external_body]
fn random_uuid_bytes() -> (r: Vec<u8>)
    ensures
        r@.len() == 16,
        r@[6] / 16 == 4,
        r@[8] / 64 == 2,
{
    uuid::Uuid::new_v4().as_bytes().to_vec()
}

/// A random password of twelve letters and digits.
pub fn random_password() -> (r: String)
    ensures
        r@.len() == 12,
        forall|i: int| 0 <= i < 12 ==> crate::kobo::is_alphanumeric(#[trigger] r@[i]),
{
    password_of(&random_uuid_bytes())
}

/// The user that a first sign-in creates, given the hash of a password that nobody knows.
pub fn signed_up_user(email: &str, hash: Result<String, String>) -> (r: Option<NewUser>)
    ensures
        match (r, hash) {
            (Some(u), Ok(h)) => u.email@ == email@ && u.password == h && u.roles@ == seq![
                UserRole::FileDownload,
                UserRole::PageStreaming,
            ] && u.shared_all_libraries,
            (None, Err(_)) => true,
            _ => false,
        },
        r is Some ==> !r->0.roles@.contains(UserRole::Admin),
        r is Some ==> r->0.roles@.contains(UserRole::FileDownload) && r->0.roles@.contains(
            UserRole::PageStreaming,
        ),
{
    match hash {
        Ok(password) => {
            let mut roles: Vec<UserRole> = Vec::new();
            roles.push(UserRole::FileDownload);
            roles.push(UserRole::PageStreaming);
            assert(roles@[0] == UserRole::FileDownload && roles@[1] == UserRole::PageStreaming);
            Some(NewUser { email: email.to_owned(), password, roles, shared_all_libraries: true })
        },
        Err(_) => None,
    }
}

/// Whether a text is a password as they are made up for users who have none: twelve letters and
/// digits.
pub open spec fn is_made_up_password(s: Seq<char>) -> bool {
    s.len() == 12 && forall|i: int| 0 <= i < 12 ==> crate::kobo::is_alphanumeric(#[trigger] s[i])
}

/// Creates the user of a first sign-in, whose made-up password is only kept as a hash of cost ten.
/// There is no user where no hash could be made, which rests on the randomness that the machine
/// gives.
pub fn sign_up(email: &str) -> (r: Option<NewUser>)
    ensures
        match r {
            Some(u) => {
                &&& u.email@ == email@
                &&& u.roles@ == seq![UserRole::FileDownload, UserRole::PageStreaming]
                &&& u.shared_all_libraries
                &&& crate::claim::is_hash_of_cost_ten(u.password@)
                &&& exists|password: Seq<char>|
                    #[trigger] crate::claim::bcrypt_verifies(password, u.password@)
                        && is_made_up_password(password)
            },
            None => true,
        },
        r is Some ==> !r->0.roles@.contains(UserRole::Admin),
{
    let password: String = random_password();
    proof {
        crate::claim::lemma_cost_ten();
    }
    signed_up_user(email, bcrypt_hash(password.as_str(), 10))
}

} // verus!
