//! Bearer tokens in HTTP request headers.

use crate::{text, tokens};
use axum::http::{header, HeaderMap, HeaderValue};
use vstd::prelude::*;

verus! {

/// The header map of the `http` crate.
#[verifier::external_type_specification]
#[verifier::external_body]
#[verifier::reject_recursive_types(T)]
pub struct ExHeaderMap<T>(axum::http::HeaderMap<T>);

/// A header value of the `http` crate.
#[verifier::external_type_specification]
#[verifier::external_body]
pub struct ExHeaderValue(axum::http::HeaderValue);

/// The first value of each header that a map holds, by the header's lower-case name.
pub uninterp spec fn first_values(headers: HeaderMap<HeaderValue>) -> Map<Seq<char>, Seq<u8>>;

/// The bytes that a header value holds.
pub uninterp spec fn value_bytes(value: HeaderValue) -> Seq<u8>;

/// A printable ASCII character, a space or a tab.
pub open spec fn is_visible_ascii(b: u8) -> bool {
    32 <= b < 127 || b == 9
}

/// All bytes are visible ASCII.
pub open spec fn is_visible(bytes: Seq<u8>) -> bool {
    forall|i: int| 0 <= i < bytes.len() ==> is_visible_ascii(#[trigger] bytes[i])
}

/// ASCII bytes as text.
pub open spec fn ascii_text(bytes: Seq<u8>) -> Seq<char> {
    Seq::new(bytes.len(), |i: int| bytes[i] as char)
}

/// Trusted: `HeaderMap::get` with the `authorization` name gives the first value of that header,
/// and nothing when the map has none.
#[verifier::external_body]
fn authorization(headers: &HeaderMap<HeaderValue>) -> (r: Option<&HeaderValue>)
    ensures
        r is Some <==> first_values(*headers).contains_key("authorization"@),
        r matches Some(value) ==> value_bytes(*value) == first_values(
            *headers,
        )["authorization"@],
{
    headers.get(header::AUTHORIZATION)
}

/// Trusted: `HeaderValue::to_str` gives the value as text when it holds visible ASCII alone, and
/// an error otherwise.
#[verifier::external_body]
fn header_text(value: &HeaderValue) -> (r: Option<&str>)
    ensures
        r is Some <==> is_visible(value_bytes(*value)),
        r matches Some(s) ==> s@ == ascii_text(value_bytes(*value)),
{
    value.to_str().ok()
}

/// The token of an `Authorization` value: the trimmed text behind `Bearer `, unless that is
/// empty.
pub open spec fn bearer_of(auth: Seq<char>) -> Option<Seq<char>> {
    let prefix = "Bearer "@;
    if !prefix.is_prefix_of(auth) {
        None
    } else {
        let t = text::trimmed(auth.skip(prefix.len() as int));
        if t.len() == 0 {
            None
        } else {
            Some(t)
        }
    }
}

/// The token that request headers carry.
pub open spec fn header_token(headers: HeaderMap<HeaderValue>) -> Option<Seq<char>> {
    let values = first_values(headers);
    let name = "authorization"@;
    if values.contains_key(name) && is_visible(values[name]) {
        bearer_of(ascii_text(values[name]))
    } else {
        None
    }
}

/// An optional owned text by its characters.
pub open spec fn owned_view(text: Option<String>) -> Option<Seq<char>> {
    match text {
        Some(t) => Some(t@),
        None => None,
    }
}

/// Extract the token from the text of an `Authorization` header.
pub fn bearer_token(auth: &str) -> (r: Option<String>)
    ensures
        owned_view(r) == bearer_of(auth@),
{
    match text::strip_prefix(auth, "Bearer ") {
        Some(rest) => {
            assert(auth@.skip("Bearer "@.len() as int) == rest@);
            let t = rest.trim();
            if t.is_empty() {
                None
            } else {
                Some(t.to_owned())
            }
        },
        None => None,
    }
}

/// Extract a session token from `Authorization: Bearer` alone. Each window holds and presents its
/// own credential; there are no cookies.
pub fn token_from_headers(headers: &HeaderMap<HeaderValue>) -> (r: Option<String>)
    ensures
        owned_view(r) == header_token(*headers),
{
    match authorization(headers) {
        Some(value) => match header_text(value) {
            Some(auth) => bearer_token(auth),
            None => None,
        },
        None => None,
    }
}

/// An `Authorization` text carries a token exactly when it starts with `Bearer ` and something
/// other than white space follows; the token is what follows, trimmed.
pub proof fn law_bearer_token_is_the_trimmed_rest(rest: Seq<char>, auth: Seq<char>)
    ensures
        !text::blank(rest) ==> bearer_of("Bearer "@ + rest) == Some(text::trimmed(rest)),
        text::blank(rest) ==> bearer_of("Bearer "@ + rest) is None,
        bearer_of(auth) is Some ==> exists|r: Seq<char>|
            auth == #[trigger] ("Bearer "@ + r) && !text::blank(r),
{
    let prefix = "Bearer "@;
    let n = prefix.len() as int;
    assert((prefix + rest).skip(n) == rest);
    assert(prefix.is_prefix_of(prefix + rest));
    text::lemma_trimmed(rest);
    if bearer_of(auth) is Some {
        let r = auth.skip(n);
        text::lemma_trimmed(r);
        assert(auth == prefix + r);
    }
}

/// Request headers carry the token of the first `Authorization` value, and none when there is no
/// such value or it holds anything but visible ASCII.
pub proof fn law_first_authorization_value_counts(headers: HeaderMap<HeaderValue>)
    ensures
        !first_values(headers).contains_key("authorization"@) ==> header_token(headers) is None,
        first_values(headers).contains_key("authorization"@) ==> {
            let bytes = first_values(headers)["authorization"@];
            if forall|i: int|
                0 <= i < bytes.len() ==> (32 <= #[trigger] bytes[i] < 127 || bytes[i] == 9) {
                header_token(headers) == bearer_of(bytes.map_values(|b: u8| b as char))
            } else {
                header_token(headers) is None
            }
        },
{
    let bytes = first_values(headers)["authorization"@];
    assert(bytes.map_values(|b: u8| b as char) == ascii_text(bytes));
    if forall|i: int| 0 <= i < bytes.len() ==> (32 <= #[trigger] bytes[i] < 127 || bytes[i] == 9) {
        assert(is_visible(bytes));
    } else {
        let i = choose|i: int|
            0 <= i < bytes.len() && !(32 <= #[trigger] bytes[i] < 127 || bytes[i] == 9);
        assert(!is_visible_ascii(bytes[i]));
    }
}

/// A request whose first `Authorization` value reads `Bearer ` and a session token carries that
/// token.
pub proof fn law_header_carries_the_session_token(
    headers: HeaderMap<HeaderValue>,
    token: Seq<char>,
)
    requires
        tokens::is_session_token(token),
        first_values(headers).contains_key("authorization"@),
        ascii_text(first_values(headers)["authorization"@]) == "Bearer "@ + token,
    ensures
        header_token(headers) == Some(token),
{
    let bytes = first_values(headers)["authorization"@];
    let auth = "Bearer "@ + token;
    tokens::lemma_session_token_shape(token);
    assert(is_visible(bytes)) by {
        reveal_strlit("Bearer ");
        assert forall|i: int| 0 <= i < bytes.len() implies is_visible_ascii(
            #[trigger] bytes[i],
        ) by {
            assert(ascii_text(bytes)[i] == bytes[i] as char);
            assert(ascii_text(bytes)[i] == auth[i]);
            if i >= 7 {
                assert(auth[i] == token[i - 7]);
            }
        }
    }
    assert(!text::is_white_space(token[0]));
    assert(!text::is_white_space(token[35]));
    assert(text::is_core(token, 0, 36));
    text::law_trimming_takes_white_space_off_the_ends(token, 0, 36);
    assert(token.subrange(0, 36) == token);
    law_bearer_token_is_the_trimmed_rest(token, auth);
}

} // verus!
