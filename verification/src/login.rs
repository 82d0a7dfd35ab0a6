//! Login, logout and the authentication gate of the HTTP endpoints.

use crate::auth::{Auth, AuthState};
use crate::rate_limit::{IpAddr, LoginRateLimiter};
use crate::{auth, clock, headers, passwords, rate_limit, tokens};
use axum::http::{HeaderMap, HeaderValue};
use std::time::Instant;
use vstd::prelude::*;

verus! {

/// HTTP status of a request that is served.
pub const OK: u16 = 200;

/// HTTP status of a request without valid credentials.
pub const UNAUTHORIZED: u16 = 401;

/// What a login request carries.
pub struct LoginBody {
    pub password: String,
}

/// Contents of a response.
pub enum Body {
    Empty,
    Text(String),
    /// A JSON object whose only member, `token`, is this session token.
    Token(String),
}

/// A response to a request.
pub struct Reply {
    pub status: u16,
    pub body: Body,
}

/// Contents of a response by their characters.
pub enum BodyText {
    Empty,
    Text(Seq<char>),
    Token(Seq<char>),
}

/// A response by its characters.
pub struct Response {
    pub status: u16,
    pub body: BodyText,
}

impl View for Reply {
    type V = Response;

    open spec fn view(&self) -> Response {
        Response {
            status: self.status,
            body: match self.body {
                Body::Empty => BodyText::Empty,
                Body::Text(s) => BodyText::Text(s@),
                Body::Token(s) => BodyText::Token(s@),
            },
        }
    }
}

/// The response to a wrong password.
pub open spec fn wrong_password() -> Response {
    Response { status: UNAUTHORIZED, body: BodyText::Text("Wrong password"@) }
}

/// The response that hands out a session token.
pub open spec fn granted(token: Seq<char>) -> Response {
    Response { status: OK, body: BodyText::Token(token) }
}

/// The request headers carry a valid session token.
pub open spec fn authed(auth: Auth, headers: HeaderMap<HeaderValue>) -> bool {
    match headers::header_token(headers) {
        Some(token) => auth.tokens.contains(token),
        None => false,
    }
}

/// A login attempt whose password check came out as `verified` leads from one state to another
/// and to this response: a wrong password changes nothing, and the right one issues a session
/// token that was not valid before and hands it out.
pub open spec fn login_concludes(before: Auth, verified: bool, after: Auth, reply: Response) -> bool {
    if verified {
        exists|token: Seq<char>|
            tokens::fresh_session_token(before.tokens, token) && after == #[trigger] auth::issued(
                before,
                token,
            ) && reply == granted(token)
    } else {
        after == before && reply == wrong_password()
    }
}

/// Authentication gate shared by the WebSocket and the data endpoints.
pub fn is_authed(auth: &AuthState, headers: &HeaderMap<HeaderValue>) -> (r: bool)
    ensures
        r == authed(auth@, *headers),
{
    match headers::token_from_headers(headers) {
        Some(token) => auth.check(token.as_str()),
        None => false,
    }
}

/// Make a session token valid and hand it out.
pub fn grant(auth: &mut AuthState, token: String) -> (r: Reply)
    requires
        old(auth).wf(),
    ensures
        final(auth).wf(),
        final(auth)@ == auth::issued(old(auth)@, token@),
        r@ == granted(token@),
        r.status == 200,
        r.body matches Body::Token(t) && t@ == token@,
{
    auth.admit_session(token.clone());
    Reply { status: OK, body: Body::Token(token) }
}

/// Answer a login attempt whose password check came out as `verified`.
pub fn finish_login(auth: &mut AuthState, verified: bool) -> (r: Reply)
    requires
        old(auth).wf(),
    ensures
        final(auth).wf(),
        login_concludes(old(auth)@, verified, final(auth)@, r@),
        !verified ==> {
            &&& r.status == 401
            &&& r.body matches Body::Text(s) && s@ == "Wrong password"@
            &&& final(auth)@ == old(auth)@
        },
        verified ==> {
            &&& r.status == 200
            &&& r.body matches Body::Token(token) && {
                &&& !old(auth)@.tokens.contains(token@)
                &&& final(auth)@.tokens == old(auth)@.tokens.insert(token@)
            }
        },
{
    if !verified {
        return Reply { status: UNAUTHORIZED, body: Body::Text("Wrong password".to_owned()) };
    }
    let token = auth.mint();
    Reply { status: OK, body: Body::Token(token) }
}

/// Verify the login password, issue a token and hand it out. The token is the sole credential; no
/// cookie is set. This asks no rate limiter: an attempt from the network goes through
/// `begin_login` and `conclude_login`, or through `limited_login_at`.
pub fn login(auth: &mut AuthState, body: &LoginBody) -> (r: Reply)
    requires
        old(auth).wf(),
    ensures
        final(auth).wf(),
        login_concludes(
            old(auth)@,
            passwords::accepts(old(auth)@.verifier_phc, body.password@),
            final(auth)@,
            r@,
        ),
        !passwords::accepts(old(auth)@.verifier_phc, body.password@) ==> {
            &&& r.status == 401
            &&& r.body matches Body::Text(s) && s@ == "Wrong password"@
            &&& final(auth)@ == old(auth)@
        },
        passwords::accepts(old(auth)@.verifier_phc, body.password@) ==> {
            &&& r.status == 200
            &&& r.body matches Body::Token(token) && {
                &&& !old(auth)@.tokens.contains(token@)
                &&& final(auth)@.tokens == old(auth)@.tokens.insert(token@)
            }
        },
{
    let verified = auth.verify(body.password.as_str());
    finish_login(auth, verified)
}

/// Tell whether the current request is authenticated.
pub fn me(auth: &AuthState, headers: &HeaderMap<HeaderValue>) -> (r: Reply)
    ensures
        r@ == (Response {
            status: if authed(auth@, *headers) {
                OK
            } else {
                UNAUTHORIZED
            },
            body: BodyText::Empty,
        }),
        r.status == 200 <==> authed(auth@, *headers),
        r.status == 401 <==> !authed(auth@, *headers),
        r.body is Empty,
{
    if is_authed(auth, headers) {
        Reply { status: OK, body: Body::Empty }
    } else {
        Reply { status: UNAUTHORIZED, body: Body::Empty }
    }
}

/// Log out by revoking the bearer token of the request, if it carries one.
pub fn logout(auth: &mut AuthState, headers: &HeaderMap<HeaderValue>) -> (r: Reply)
    requires
        old(auth).wf(),
    ensures
        final(auth).wf(),
        final(auth)@ == match headers::header_token(*headers) {
            Some(token) => auth::revoked(old(auth)@, token),
            None => old(auth)@,
        },
        r@ == (Response { status: OK, body: BodyText::Text("ok"@) }),
        r.status == 200,
        r.body matches Body::Text(s) && s@ == "ok"@,
        !authed(final(auth)@, *headers),
{
    match headers::token_from_headers(headers) {
        Some(token) => auth.revoke(token.as_str()),
        None => {},
    }
    Reply { status: OK, body: Body::Text("ok".to_owned()) }
}

/// Decide at `now` whether a login attempt of this address goes on to the password check. It does
/// not while the address is blocked.
pub fn begin_login_at(limiter: &mut LoginRateLimiter, ip: IpAddr, now: u128) -> (r: bool)
    ensures
        r == rate_limit::allowed(old(limiter)@, ip, now),
        final(limiter)@ == rate_limit::live_entries(old(limiter)@, now),
        final(limiter).origin() == old(limiter).origin(),
        final(limiter).clock() == old(limiter).clock(),
{
    limiter.allow_at(ip, now)
}

/// Decide whether a login attempt of this address goes on to the password check. It does not while
/// the address is blocked.
pub fn begin_login(limiter: &mut LoginRateLimiter, ip: IpAddr) -> (r: bool)
    ensures
        exists|t: Instant|
            {
                let now = #[trigger] clock::nanos_between(t, old(limiter).origin());
                &&& r == rate_limit::allowed(old(limiter)@, ip, now)
                &&& final(limiter)@ == rate_limit::live_entries(old(limiter)@, now)
                &&& now == final(limiter).clock().reading()
            },
        final(limiter).origin() == old(limiter).origin(),
        rate_limit::ticked(old(limiter).clock(), final(limiter).clock()),
{
    let now: u128 = limiter.tick();
    begin_login_at(limiter, ip, now)
}

/// Answer a login attempt that the rate limiter let through and whose password check came out as
/// `verified`, and record the outcome for its address.
pub fn conclude_login_at(
    auth: &mut AuthState,
    limiter: &mut LoginRateLimiter,
    ip: IpAddr,
    now: u128,
    verified: bool,
) -> (r: Reply)
    requires
        old(auth).wf(),
    ensures
        final(auth).wf(),
        login_concludes(old(auth)@, verified, final(auth)@, r@),
        final(limiter)@ == if verified {
            rate_limit::cleared_at(old(limiter)@, ip, now)
        } else {
            rate_limit::failed_at(old(limiter)@, ip, now)
        },
        final(limiter).origin() == old(limiter).origin(),
        final(limiter).clock() == old(limiter).clock(),
{
    if verified {
        limiter.record_success_at(ip, now);
    } else {
        limiter.record_failure_at(ip, now);
    }
    finish_login(auth, verified)
}

/// Answer a login attempt that the rate limiter let through and whose password check has just
/// come out as `verified`, and record the outcome for its address.
pub fn conclude_login(
    auth: &mut AuthState,
    limiter: &mut LoginRateLimiter,
    ip: IpAddr,
    verified: bool,
) -> (r: Reply)
    requires
        old(auth).wf(),
    ensures
        final(auth).wf(),
        login_concludes(old(auth)@, verified, final(auth)@, r@),
        exists|t: Instant|
            {
                let now = #[trigger] clock::nanos_between(t, old(limiter).origin());
                &&& final(limiter)@ == if verified {
                    rate_limit::cleared_at(old(limiter)@, ip, now)
                } else {
                    rate_limit::failed_at(old(limiter)@, ip, now)
                }
                &&& now == final(limiter).clock().reading()
            },
        final(limiter).origin() == old(limiter).origin(),
        rate_limit::ticked(old(limiter).clock(), final(limiter).clock()),
{
    let now: u128 = limiter.tick();
    conclude_login_at(auth, limiter, ip, now, verified)
}

/// Log in from an address at `now`. A blocked address is rejected before any password is
/// verified, and gets nothing.
pub fn limited_login_at(
    auth: &mut AuthState,
    limiter: &mut LoginRateLimiter,
    ip: IpAddr,
    now: u128,
    body: &LoginBody,
) -> (r: Option<Reply>)
    requires
        old(auth).wf(),
    ensures
        final(auth).wf(),
        r is Some <==> rate_limit::allowed(old(limiter)@, ip, now),
        r is None ==> final(auth)@ == old(auth)@ && final(limiter)@ == rate_limit::live_entries(
            old(limiter)@,
            now,
        ),
        r matches Some(reply) ==> {
            let verified = passwords::accepts(old(auth)@.verifier_phc, body.password@);
            &&& login_concludes(old(auth)@, verified, final(auth)@, reply@)
            &&& final(limiter)@ == if verified {
                rate_limit::cleared_at(old(limiter)@, ip, now)
            } else {
                rate_limit::failed_at(old(limiter)@, ip, now)
            }
        },
        final(limiter).origin() == old(limiter).origin(),
        final(limiter).clock() == old(limiter).clock(),
{
    if !begin_login_at(limiter, ip, now) {
        return None;
    }
    let verified = auth.verify(body.password.as_str());
    let reply = conclude_login_at(auth, limiter, ip, now, verified);
    proof {
        rate_limit::law_pruning_keeps_the_live_entries(old(limiter)@, now);
    }
    Some(reply)
}

} // verus!
