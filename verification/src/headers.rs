//! What the simulator reads of a request's headers.

use crate::text::{contains, lower, occurs_in, same_text, split_words, texts, to_lower, words};
use axum::http::{HeaderMap, HeaderValue};
use vstd::prelude::*;

verus! {

/// `axum::http::HeaderMap`.
#[verifier::external_type_specification]
#[verifier::external_body]
#[verifier::reject_recursive_types(T)]
pub struct ExHeaderMap<T>(HeaderMap<T>);

/// `axum::http::HeaderValue`.
#[verifier::external_type_specification]
#[verifier::external_body]
pub struct ExHeaderValue(HeaderValue);

/// The headers, by their names in small letters: the bytes of the first value of each.
pub uninterp spec fn header_fields(headers: HeaderMap<HeaderValue>) -> Map<Seq<char>, Seq<u8>>;

/// `HeaderMap::get` with a name in small letters: the bytes of the first value of that
/// name, where there is one.
#[verifier::external_body]
fn header_bytes(headers: &HeaderMap<HeaderValue>, name: &str) -> (bytes: Option<Vec<u8>>)
    requires
        lower(name@) == name@,
    ensures
        match bytes {
            Some(content) => header_fields(*headers).contains_key(name@)
                && header_fields(*headers)[name@] == content@,
            None => !header_fields(*headers).contains_key(name@),
        },
{
    headers.get(name).map(|value| value.as_bytes().to_vec())
}

/// The bytes that a header's text may hold: visible ASCII characters, space and tab.
pub open spec fn is_visible(byte: u8) -> bool {
    32 <= byte < 127 || byte == 9
}

/// The text of a header's value, where all its bytes are visible.
pub open spec fn visible_text(bytes: Seq<u8>) -> Option<Seq<char>> {
    if forall|i: int| 0 <= i < bytes.len() ==> is_visible(#[trigger] bytes[i]) {
        Some(bytes.map_values(|byte: u8| byte as char))
    } else {
        None
    }
}

/// The text of the header `name`, where it is there and visible.
pub open spec fn header_text(fields: Map<Seq<char>, Seq<u8>>, name: Seq<char>) -> Option<
    Seq<char>,
> {
    if fields.contains_key(name) {
        visible_text(fields[name])
    } else {
        None
    }
}

/// The text of a header's value, where all its bytes are visible.
pub(crate) fn to_visible_text(bytes: &Vec<u8>) -> (text: Option<String>)
    ensures
        text is Some <==> visible_text(bytes@) is Some,
        text matches Some(content) ==> visible_text(bytes@) == Some(content@),
{
    let mut text = String::new();
    let mut at: usize = 0;
    while at < bytes.len()
        invariant
            at <= bytes@.len(),
            forall|i: int| 0 <= i < at ==> is_visible(#[trigger] bytes@[i]),
            text@ == bytes@.take(at as int).map_values(|byte: u8| byte as char),
        decreases bytes.len() - at,
    {
        let byte: u8 = bytes[at];
        if !((32 <= byte && byte < 127) || byte == 9) {
            assert(!is_visible(bytes@[at as int]));
            return None;
        }
        text.push(byte as char);
        assert(text@ =~= bytes@.take(at + 1).map_values(|byte: u8| byte as char));
        at = at + 1;
    }
    assert(bytes@.take(bytes@.len() as int) =~= bytes@);
    Some(text)
}

/// The text of the header `name`, where it is there and visible.
pub(crate) fn read_header(headers: &HeaderMap<HeaderValue>, name: &str) -> (text: Option<String>)
    requires
        lower(name@) == name@,
    ensures
        text is Some <==> header_text(header_fields(*headers), name@) is Some,
        text matches Some(content) ==> header_text(header_fields(*headers), name@) == Some(
            content@,
        ),
{
    match header_bytes(headers, name) {
        Some(bytes) => to_visible_text(&bytes),
        None => None,
    }
}

/// The request is JSON, or does not say what it is.
pub open spec fn accepts_json(fields: Map<Seq<char>, Seq<u8>>) -> bool {
    match header_text(fields, "content-type"@) {
        Some(text) => occurs_in(lower(text), "application/json"@),
        None => true,
    }
}

/// Whether the request is JSON, or does not say what it is.
pub fn is_json_request(headers: &HeaderMap<HeaderValue>) -> (result: bool)
    ensures
        result == accepts_json(header_fields(*headers)),
{
    proof {
        reveal_strlit("content-type");
        assert(lower("content-type"@) =~= "content-type"@);
    }
    match read_header(headers, "content-type") {
        Some(text) => contains(to_lower(text.as_str()).as_str(), "application/json"),
        None => true,
    }
}

/// The token of an authorization of two words whose first is `bearer`, in letters of any
/// case.
pub open spec fn bearer_token(authorization: Seq<char>) -> Option<Seq<char>> {
    let parts = words(authorization);
    if parts.len() == 2 && lower(parts[0]) == "bearer"@ {
        Some(parts[1])
    } else {
        None
    }
}

/// The key that a request is made with: its `x-api-key`, else its bearer token, else
/// `anonymous`.
pub open spec fn api_key(fields: Map<Seq<char>, Seq<u8>>) -> Seq<char> {
    match header_text(fields, "x-api-key"@) {
        Some(key) => key,
        None => match header_text(fields, "authorization"@) {
            Some(authorization) => match bearer_token(authorization) {
                Some(token) => token,
                None => "anonymous"@,
            },
            None => "anonymous"@,
        },
    }
}

/// The key that a request is made with.
pub fn extract_api_key(headers: &HeaderMap<HeaderValue>) -> (key: String)
    ensures
        key@ == api_key(header_fields(*headers)),
{
    proof {
        reveal_strlit("x-api-key");
        assert(lower("x-api-key"@) =~= "x-api-key"@);
        reveal_strlit("authorization");
        assert(lower("authorization"@) =~= "authorization"@);
    }
    if let Some(key) = read_header(headers, "x-api-key") {
        return key;
    }
    if let Some(authorization) = read_header(headers, "authorization") {
        let parts = split_words(authorization.as_str());
        assert(texts(parts@).len() == parts@.len());
        if parts.len() == 2 {
            assert(texts(parts@)[0] == parts@[0]@ && texts(parts@)[1] == parts@[1]@);
            if same_text(to_lower(parts[0].as_str()).as_str(), "bearer") {
                return parts[1].clone();
            }
        }
    }
    "anonymous".to_owned()
}

} // verus!
