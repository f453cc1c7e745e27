//! What is read of the headers of a request.

use crate::headers::{accepts_json, api_key, header_text, is_visible};
use crate::text::{is_whitespace, lower, words};
use crate::text_laws::{is_blank, is_solid, law_occurs, law_words, law_words_between_whitespace};
use vstd::prelude::*;

verus! {

/// The header has this text: its bytes are the codes of the characters, all of them printable
/// ASCII characters or tabs.
pub open spec fn says(
    fields: Map<Seq<char>, Seq<u8>>,
    name: Seq<char>,
    text: Seq<char>,
) -> bool {
    &&& fields.contains_key(name)
    &&& fields[name].len() == text.len()
    &&& forall|i: int|
        0 <= i < text.len() ==> {
            let byte = #[trigger] fields[name][i];
            &&& byte as int == text[i] as int
            &&& 0x20 <= byte <= 0x7e || byte == 0x09
        }
}

/// The header has no text: it is not there, or some byte of it is no printable ASCII character and
/// no tab.
pub open spec fn says_nothing(fields: Map<Seq<char>, Seq<u8>>, name: Seq<char>) -> bool {
    fields.contains_key(name) ==> exists|i: int|
        0 <= i < fields[name].len() && !(0x20 <= #[trigger] fields[name][i] <= 0x7e)
            && fields[name][i] != 0x09
}

/// The text of a header is what its bytes say, where they say something.
pub proof fn law_header_text(
    fields: Map<Seq<char>, Seq<u8>>,
    name: Seq<char>,
    text: Seq<char>,
)
    ensures
        says(fields, name, text) ==> header_text(fields, name) == Some(text),
        says_nothing(fields, name) ==> header_text(fields, name) is None,
        header_text(fields, name) == Some(text) ==> says(fields, name, text),
        header_text(fields, name) is None ==> says_nothing(fields, name),
{
    if fields.contains_key(name) {
        let bytes = fields[name];
        if says(fields, name, text) {
            assert forall|i: int| 0 <= i < bytes.len() implies is_visible(#[trigger] bytes[i]) by {
                assert(bytes[i] as int == text[i] as int);
            }
            assert(bytes.map_values(|byte: u8| byte as char) =~= text) by {
                assert forall|i: int| 0 <= i < bytes.len() implies bytes[i] as char == text[i] by {
                    assert(bytes[i] as int == text[i] as int);
                }
            }
        }
        if says_nothing(fields, name) {
            let at = choose|i: int|
                0 <= i < bytes.len() && !(0x20 <= #[trigger] bytes[i] <= 0x7e) && bytes[i] != 0x09;
            assert(!is_visible(bytes[at]));
        }
        if header_text(fields, name) == Some(text) {
            assert forall|i: int| 0 <= i < text.len() implies {
                let byte = #[trigger] bytes[i];
                &&& byte as int == text[i] as int
                &&& 0x20 <= byte <= 0x7e || byte == 0x09
            } by {
                assert(is_visible(bytes[i]));
                assert(text[i] == bytes[i] as char);
            }
        }
    }
}

/// A request is taken for JSON where its content type says nothing, or holds `application/json` in
/// letters of any case; not where it says something else.
pub proof fn law_content_type(fields: Map<Seq<char>, Seq<u8>>, text: Seq<char>)
    ensures
        says_nothing(fields, "content-type"@) ==> accepts_json(fields),
        says(fields, "content-type"@, text) ==> (accepts_json(fields) <==> exists|
            before: Seq<char>,
            after: Seq<char>,
        |
            lower(text) == #[trigger] (before + "application/json"@ + after)),
{
    law_header_text(fields, "content-type"@, text);
    law_occurs(lower(text), "application/json"@);
}

/// The key of a request is what its `x-api-key` says, whatever else it says.
pub proof fn law_own_key(fields: Map<Seq<char>, Seq<u8>>, key: Seq<char>)
    requires
        says(fields, "x-api-key"@, key),
    ensures
        api_key(fields) == key,
{
    law_header_text(fields, "x-api-key"@, key);
}

/// The authorization is two words, the first of them `bearer` in letters of any case.
pub open spec fn is_bearer(
    authorization: Seq<char>,
    before: Seq<char>,
    scheme: Seq<char>,
    between: Seq<char>,
    token: Seq<char>,
    after: Seq<char>,
) -> bool {
    &&& authorization == before + (scheme + between + token) + after
    &&& is_blank(before) && is_blank(between) && is_blank(after)
    &&& is_solid(scheme) && is_solid(token)
    &&& lower(scheme) == "bearer"@
    &&& between.len() > 0 && token.len() > 0
}

/// Without an `x-api-key` the key is the bearer token of the authorization.
pub proof fn law_bearer_token(
    fields: Map<Seq<char>, Seq<u8>>,
    authorization: Seq<char>,
    before: Seq<char>,
    scheme: Seq<char>,
    between: Seq<char>,
    token: Seq<char>,
    after: Seq<char>,
)
    requires
        says_nothing(fields, "x-api-key"@),
        says(fields, "authorization"@, authorization),
        is_bearer(authorization, before, scheme, between, token, after),
    ensures
        api_key(fields) == token,
{
    law_header_text(fields, "x-api-key"@, authorization);
    law_header_text(fields, "authorization"@, authorization);
    law_words_between_whitespace(before, scheme + between + token, after);
    reveal_strlit("bearer");
    assert(scheme.len() == lower(scheme).len());
    let space = between[0];
    let rest = between.drop_first();
    assert(is_blank(rest)) by {
        assert forall|i: int| 0 <= i < rest.len() implies is_whitespace(#[trigger] rest[i]) by {
            assert(rest[i] == between[i + 1]);
        }
    }
    assert(is_whitespace(between[0]));
    assert(scheme + between + token =~= scheme + seq![space] + (rest + token));
    law_words(scheme, space, rest + token);
    let nothing = Seq::<char>::empty();
    law_words_between_whitespace(rest, token, nothing);
    assert(rest + token + nothing =~= rest + token);
    law_words(token, space, nothing);
    assert(words(authorization) =~= seq![scheme, token]);
}

/// Without an `x-api-key` and without a bearer token the key is `anonymous`: the authorization says
/// nothing, or is not two words, or its first word is not `bearer`.
pub proof fn law_no_key(fields: Map<Seq<char>, Seq<u8>>, authorization: Seq<char>)
    requires
        says_nothing(fields, "x-api-key"@),
        says_nothing(fields, "authorization"@) || (says(
            fields,
            "authorization"@,
            authorization,
        ) && (words(authorization).len() != 2 || lower(words(authorization)[0]) != "bearer"@)),
    ensures
        api_key(fields) == "anonymous"@,
{
    law_header_text(fields, "x-api-key"@, authorization);
    law_header_text(fields, "authorization"@, authorization);
}

} // verus!
