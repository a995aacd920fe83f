//! Bearer-token authorization of incoming requests.

use vstd::prelude::*;
use std::rc::Rc;
use crate::text::{has_prefix, str_eq, strip_prefix};

verus! {

/// The credentials that protect the service: the secret that signs
/// access tokens and the user id that a token must carry.
pub struct ApiKey {
    pub vmbfcoreapi_imgproc_mkey: String,
    pub vmbfcoreapi_imgproc_uid: String,
}

/// The guard placed in front of an inner service, holding that service
/// and a copy of the credentials it checks requests against.
pub struct ApiKeyMiddleware<S> {
    service: Rc<S>,
    vmbfcoreapi_imgproc_mkey: String,
    vmbfcoreapi_imgproc_uid: String,
}

impl ApiKey {
    /// Wraps `service` in a guard that checks requests against these
    /// credentials.
    pub fn new_transform<S>(&self, service: S) -> (m: ApiKeyMiddleware<S>)
        ensures
            m.guarded() == service,
            m.secret_chars() == self.vmbfcoreapi_imgproc_mkey@,
            m.user_id_chars() == self.vmbfcoreapi_imgproc_uid@,
    {
        ApiKeyMiddleware {
            service: Rc::new(service),
            vmbfcoreapi_imgproc_mkey: self.vmbfcoreapi_imgproc_mkey.clone(),
            vmbfcoreapi_imgproc_uid: self.vmbfcoreapi_imgproc_uid.clone(),
        }
    }
}

impl<S> ApiKeyMiddleware<S> {
    /// The service behind the guard.
    pub closed spec fn guarded(&self) -> S {
        *self.service
    }

    /// The secret that tokens must be signed with.
    pub closed spec fn secret_chars(&self) -> Seq<char> {
        self.vmbfcoreapi_imgproc_mkey@
    }

    /// The user id that tokens must carry.
    pub closed spec fn user_id_chars(&self) -> Seq<char> {
        self.vmbfcoreapi_imgproc_uid@
    }

    /// The service behind the guard.
    pub fn service(&self) -> (r: &Rc<S>)
        ensures
            **r == self.guarded(),
    {
        &self.service
    }

    /// The secret that tokens must be signed with.
    pub fn secret(&self) -> (r: &str)
        ensures
            r@ == self.secret_chars(),
    {
        self.vmbfcoreapi_imgproc_mkey.as_str()
    }

    /// The user id that tokens must carry.
    pub fn user_id(&self) -> (r: &str)
        ensures
            r@ == self.user_id_chars(),
    {
        self.vmbfcoreapi_imgproc_uid.as_str()
    }
}

/// The token carried by an `Authorization` header value of the form
/// `Bearer <token>`.
pub open spec fn bearer_token_of(header: Seq<char>) -> Option<Seq<char>> {
    if has_prefix(header, "Bearer "@) {
        Some(header.skip("Bearer "@.len() as int))
    } else {
        None
    }
}

/// The token in an `Authorization` header value, when it has the form
/// `Bearer <token>`.
pub fn bearer_token(header: &str) -> (r: Option<&str>)
    ensures
        r matches Some(t) ==> bearer_token_of(header@) == Some(t@),
        r is None ==> bearer_token_of(header@) is None,
{
    strip_prefix(header, "Bearer ")
}

/// What the guard does with a request before any token is checked.
pub enum Admission<'a> {
    /// Forward the request: it carries the service's API key.
    Forward,
    /// Refuse the request as unauthorized.
    Refuse,
    /// Check this bearer token; forward the request only if it is valid.
    CheckToken(&'a str),
}

impl<S> ApiKeyMiddleware<S> {
    /// The first step of guarding a request, given its `X-API-KEY` and
    /// `Authorization` header values (`None` when absent or not valid
    /// text). A request that carries the API key is forwarded; one that
    /// carries neither the key nor a bearer token is refused; otherwise its
    /// bearer token is to be checked.
    pub fn admission<'a>(&self, api_key: Option<&str>, authorization: Option<&'a str>) -> (r: Admission<'a>)
        ensures
            match r {
                Admission::Forward => api_key is Some && api_key->0@ == self.secret_chars(),
                Admission::Refuse => !(api_key is Some && api_key->0@ == self.secret_chars())
                    && (authorization is None || bearer_token_of(authorization->0@) is None),
                Admission::CheckToken(t) => !(api_key is Some && api_key->0@ == self.secret_chars())
                    && authorization is Some
                    && bearer_token_of(authorization->0@) == Some(t@),
            },
    {
        if let Some(key) = api_key {
            if str_eq(key, self.vmbfcoreapi_imgproc_mkey.as_str()) {
                return Admission::Forward;
            }
        }
        match authorization {
            Some(header) => match bearer_token(header) {
                Some(token) => Admission::CheckToken(token),
                None => Admission::Refuse,
            },
            None => Admission::Refuse,
        }
    }
}

/// The claims of an access token whose signature has been verified.
pub struct Claims {
    pub user_id: String,
    pub iat: usize,
    pub exp: usize,
}

/// A token with these claims grants access: it names the expected user
/// and expires after `now`.
pub open spec fn grants_access(user_id: Seq<char>, exp: usize, expected_user: Seq<char>, now: usize) -> bool {
    user_id == expected_user && exp > now
}

/// Whether a token grants access, given the claims its verification
/// produced (`None` when the token did not verify), the expected user id
/// and the current UNIX time in seconds.
pub fn claims_grant_access(decoded: Option<&Claims>, expected_user: &str, now: usize) -> (r: bool)
    ensures
        r == (decoded is Some && grants_access(
            decoded->0.user_id@,
            decoded->0.exp,
            expected_user@,
            now,
        )),
        decoded is Some && decoded->0.user_id@ == expected_user@ && decoded->0.exp > now ==> r,
        r ==> decoded is Some && decoded->0.user_id@ == expected_user@ && decoded->0.exp > now,
{
    proof {
        if decoded is Some {
            lemma_access_rule(decoded->0.user_id@, decoded->0.exp, expected_user@, now);
        }
    }
    match decoded {
        Some(claims) => str_eq(claims.user_id.as_str(), expected_user) && claims.exp > now,
        None => false,
    }
}

/// A token grants access exactly when it names the expected user and has
/// not expired: any unexpired token of that user is accepted, however long
/// it remains valid, and an expired or foreign one never is.
pub proof fn lemma_access_rule(user_id: Seq<char>, exp: usize, expected_user: Seq<char>, now: usize)
    ensures
        user_id == expected_user && exp > now ==> grants_access(user_id, exp, expected_user, now),
        exp <= now ==> !grants_access(user_id, exp, expected_user, now),
        user_id != expected_user ==> !grants_access(user_id, exp, expected_user, now),
{
}

/// A header built as `Bearer ` followed by a token yields that token.
pub proof fn lemma_bearer_header_roundtrip(token: Seq<char>)
    ensures
        bearer_token_of("Bearer "@ + token) == Some(token),
{
    reveal_strlit("Bearer ");
    let h = "Bearer "@ + token;
    assert(h.subrange(0, 7) =~= "Bearer "@);
    assert(h.skip(7) =~= token);
}

} // verus!

verus! {

/// A header value yields a bearer token only when it is `Bearer `
/// followed by exactly that token.
pub proof fn lemma_bearer_header_shape(header: Seq<char>)
    ensures
        bearer_token_of(header) matches Some(t) ==> header == "Bearer "@ + t,
{
    if bearer_token_of(header) is Some {
        let t = bearer_token_of(header)->0;
        assert(header =~= header.subrange(0, "Bearer "@.len() as int) + t);
    }
}

} // verus!
