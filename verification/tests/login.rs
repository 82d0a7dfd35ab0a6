use axum::http::{HeaderMap, HeaderValue};
use web_access::auth::AuthState;
use web_access::clock::now_secs;
use web_access::headers::{bearer_token, token_from_headers};
use web_access::login::{
    begin_login, begin_login_at, conclude_login, conclude_login_at, finish_login, grant, is_authed, limited_login_at, login, logout,
    me, Body, LoginBody, Reply,
};
use web_access::passwords::hash_password;
use web_access::rate_limit::{IpAddr, LoginRateLimiter, WINDOW};
use web_access::tokens::{constant_time_eq, new_session_token, new_token, session_token_of, token_of};

fn with_authorization(value: &str) -> HeaderMap {
    let mut headers = HeaderMap::new();
    headers.insert("Authorization", HeaderValue::from_str(value).unwrap());
    headers
}

fn token_in(reply: &Reply) -> String {
    match &reply.body {
        Body::Token(token) => token.clone(),
        _ => panic!("no token was handed out"),
    }
}

fn text_in(reply: &Reply) -> &str {
    match &reply.body {
        Body::Text(text) => text,
        _ => panic!("no text in the reply"),
    }
}

fn body(password: &str) -> LoginBody {
    LoginBody { password: password.to_string() }
}

#[test]
fn bearer_tokens_are_extracted_from_headers() {
    let token = |v: &str| token_from_headers(&with_authorization(v));
    assert_eq!(token("Bearer abc"), Some("abc".to_string()));
    assert_eq!(token("Bearer   a b \t"), Some("a b".to_string()));
    assert_eq!(token("Bearer "), None);
    assert_eq!(token("Bearer"), None);
    assert_eq!(token("bearer abc"), None);
    assert_eq!(token("Basic abc"), None);
    assert_eq!(token(" Bearer abc"), None);
    assert_eq!(token_from_headers(&HeaderMap::new()), None);
    assert_eq!(bearer_token("Bearer \u{2003}x"), Some("x".to_string()));
    assert_eq!(bearer_token("Bearer \u{2003}"), None);
}

#[test]
fn only_the_first_authorization_value_counts() {
    let mut headers = with_authorization("Bearer one");
    headers.append("authorization", HeaderValue::from_static("Bearer two"));
    headers.append("x-other", HeaderValue::from_static("Bearer three"));
    assert_eq!(token_from_headers(&headers), Some("one".to_string()));
}

#[test]
fn values_beyond_visible_ascii_carry_no_token() {
    let mut headers = HeaderMap::new();
    headers.insert("authorization", HeaderValue::from_bytes(b"Bearer \xc3\xa9").unwrap());
    assert_eq!(token_from_headers(&headers), None);
    headers.insert("authorization", HeaderValue::from_bytes(b"Bearer \ta~").unwrap());
    assert_eq!(token_from_headers(&headers), Some("a~".to_string()));
}

#[test]
fn login_me_and_logout() {
    let mut auth = AuthState::load_or_create(&hash_password("s3cret").unwrap(), None);
    let refused = login(&mut auth, &body("wrong"));
    assert_eq!(refused.status, 401);
    assert_eq!(text_in(&refused), "Wrong password");

    let reply = login(&mut auth, &body("s3cret"));
    assert_eq!(reply.status, 200);
    let token = token_in(&reply);
    let headers = with_authorization(&format!("Bearer {token}"));
    assert!(auth.token_valid(&token));
    assert!(is_authed(&auth, &headers));
    assert_eq!(me(&auth, &headers).status, 200);
    assert!(matches!(me(&auth, &headers).body, Body::Empty));
    assert_eq!(me(&auth, &HeaderMap::new()).status, 401);
    assert_eq!(me(&auth, &with_authorization("Bearer other")).status, 401);

    let unknown = logout(&mut auth, &HeaderMap::new());
    assert_eq!(unknown.status, 200);
    assert_eq!(text_in(&unknown), "ok");
    assert!(is_authed(&auth, &headers));
    assert_eq!(text_in(&logout(&mut auth, &headers)), "ok");
    assert!(!is_authed(&auth, &headers));
    assert_eq!(me(&auth, &headers).status, 401);
}

#[test]
fn finishing_a_login_follows_the_check() {
    let mut auth = AuthState::load_or_create("", None);
    assert_eq!(finish_login(&mut auth, false).status, 401);
    let a = token_in(&finish_login(&mut auth, true));
    let b = token_in(&finish_login(&mut auth, true));
    assert_ne!(a, b);
    assert!(auth.check(&a) && auth.check(&b));
}

#[test]
fn a_given_token_is_granted() {
    let mut auth = AuthState::load_or_create("", None);
    let reply = grant(&mut auth, "abc".to_string());
    assert_eq!(reply.status, 200);
    assert_eq!(token_in(&reply), "abc");
    assert!(is_authed(&auth, &with_authorization("Bearer abc")));
}

#[test]
fn a_blocked_address_is_rejected_whatever_the_password() {
    let mut auth = AuthState::load_or_create(&hash_password("s3cret").unwrap(), None);
    let mut limiter = LoginRateLimiter::new();
    let ip = IpAddr::V4(1);
    for _ in 0..5 {
        let reply = limited_login_at(&mut auth, &mut limiter, ip, 10, &body("wrong"));
        assert_eq!(reply.unwrap().status, 401);
    }
    assert!(limited_login_at(&mut auth, &mut limiter, ip, 10, &body("s3cret")).is_none());
    let other = limited_login_at(&mut auth, &mut limiter, IpAddr::V4(2), 10, &body("s3cret"));
    assert_eq!(other.unwrap().status, 200);
    let later = limited_login_at(&mut auth, &mut limiter, ip, 10 + WINDOW, &body("s3cret"));
    assert_eq!(later.unwrap().status, 200);
    assert_eq!(limiter.len(), 0);
}

#[test]
fn outcomes_are_recorded_for_the_address() {
    let mut auth = AuthState::load_or_create("", None);
    let mut limiter = LoginRateLimiter::new();
    let ip = IpAddr::V6(9);
    for _ in 0..5 {
        assert_eq!(conclude_login_at(&mut auth, &mut limiter, ip, 0, false).status, 401);
    }
    assert!(!limiter.allow_at(ip, 0));
    assert_eq!(conclude_login_at(&mut auth, &mut limiter, ip, 0, true).status, 200);
    assert!(limiter.allow_at(ip, 0));
    for _ in 0..5 {
        conclude_login(&mut auth, &mut limiter, ip, false);
    }
    assert!(!limiter.allow(ip));
}

#[test]
fn tokens_have_their_forms() {
    let id: u128 = 0x67e55044_10b1_426f_9247_bb680e5fe0c8;
    assert_eq!(
        token_of(id, 0xff),
        "67e5504410b1426f9247bb680e5fe0c8000000000000000000000000000000ff"
    );
    assert_eq!(session_token_of(id), "67e55044-10b1-426f-9247-bb680e5fe0c8");
    let token = new_token();
    assert_eq!(token.len(), 64);
    assert!(token.chars().all(|c| c.is_ascii_digit() || ('a'..='f').contains(&c)));
    assert_eq!(&token[12..13], "4");
    assert_eq!(&token[44..45], "4");
    assert_ne!(token, new_token());

    let session = new_session_token();
    assert_eq!(session.len(), 36);
    for (i, c) in session.chars().enumerate() {
        if [8, 13, 18, 23].contains(&i) {
            assert_eq!(c, '-');
        } else {
            assert!(c.is_ascii_digit() || ('a'..='f').contains(&c));
        }
    }
    assert_eq!(&session[14..15], "4");
    assert!("89ab".contains(&session[19..20]));
}

#[test]
fn comparison_takes_every_byte_into_account() {
    assert!(constant_time_eq(b"", b""));
    assert!(constant_time_eq(b"abc", b"abc"));
    assert!(!constant_time_eq(b"abc", b"abd"));
    assert!(!constant_time_eq(b"xbc", b"abc"));
    assert!(!constant_time_eq(b"abc", b"ab"));
}

#[test]
fn the_clock_gives_unix_time() {
    assert!(now_secs() > 1_577_836_800);
}

#[test]
fn a_login_asks_the_limiter_before_each_attempt() {
    let mut auth = AuthState::load_or_create("", None);
    let mut limiter = LoginRateLimiter::new();
    let ip = IpAddr::V4(7);
    for t in 0..4u128 {
        assert!(begin_login_at(&mut limiter, ip, t));
        conclude_login_at(&mut auth, &mut limiter, ip, t, false);
    }
    assert!(begin_login_at(&mut limiter, ip, 4));
    conclude_login_at(&mut auth, &mut limiter, ip, 4, true);
    for t in 5..10u128 {
        assert!(begin_login_at(&mut limiter, ip, t));
        conclude_login_at(&mut auth, &mut limiter, ip, t, false);
    }
    assert!(!begin_login_at(&mut limiter, ip, 10));
    assert!(!begin_login_at(&mut limiter, ip, 5 + WINDOW - 1));
    assert!(begin_login_at(&mut limiter, ip, 5 + WINDOW));

    let other = IpAddr::V4(8);
    assert!(begin_login(&mut limiter, other));
    for _ in 0..5 {
        conclude_login(&mut auth, &mut limiter, other, false);
    }
    assert!(!begin_login(&mut limiter, other));
}
