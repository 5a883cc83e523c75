//! Request guards on credentials.
//!
//! Credentials travel only in headers: a query parameter whose key looks like
//! a credential is refused, since a URL ends up in logs, proxies and browser
//! history. A caller may supply its own provider key for one request in an
//! `X-Smista-Provider-<provider>-Api-Key` header; [`provider_from_header`]
//! names the provider such a header is for.

use vstd::prelude::*;
use crate::text::{
    ascii_lower_seq, ascii_lowercase, chars_of, contains_chars, contains_seq, lemma_split_on_nonempty,
    split, split_on, starts_with, str_eq,
};
use crate::types::{canonical_provider, Provider};

verus! {

/// The lowercase substrings that mark a query-parameter key as a credential.
///
/// Matched as substrings, so variants such as `apiKey`, `api-key` and
/// `x-smista-provider-anthropic-api-key` are all caught.
pub open spec fn credential_markers() -> Seq<Seq<char>> {
    seq!["api-key"@, "api_key"@, "apikey"@, "authorization"@, "password"@, "secret"@, "token"@, "x-smista"@]
}

/// Whether a query key, lowercased, contains a credential marker.
pub open spec fn is_credential_key(key: Seq<char>) -> bool {
    exists|m: int| 0 <= m < credential_markers().len() && contains_seq(ascii_lower_seq(key), #[trigger] credential_markers()[m])
}

/// The key of a `key=value` query pair: the text before the first `=`, or the
/// whole pair when it has none.
pub open spec fn query_key(pair: Seq<char>) -> Seq<char> {
    split_on(pair, '=')[0]
}

/// Whether any key of the `&`-separated `query` looks like a credential.
pub open spec fn spec_query_has_credential(query: Seq<char>) -> bool {
    exists|p: int| 0 <= p < split_on(query, '&').len() && is_credential_key(query_key(#[trigger] split_on(query, '&')[p]))
}

/// Whether `key`, lowercased, contains a credential marker.
fn credential_key(key: &str) -> (r: bool)
    ensures
        r == is_credential_key(key@),
{
    let lower = ascii_lowercase(key);
    let chars = chars_of(lower.as_str());
    let ghost markers = credential_markers();
    let found = contains_chars(&chars, &chars_of("api-key"))
        || contains_chars(&chars, &chars_of("api_key"))
        || contains_chars(&chars, &chars_of("apikey"))
        || contains_chars(&chars, &chars_of("authorization"))
        || contains_chars(&chars, &chars_of("password"))
        || contains_chars(&chars, &chars_of("secret"))
        || contains_chars(&chars, &chars_of("token"))
        || contains_chars(&chars, &chars_of("x-smista"));
    proof {
        assert(markers[0] == "api-key"@);
        assert(markers[1] == "api_key"@);
        assert(markers[2] == "apikey"@);
        assert(markers[3] == "authorization"@);
        assert(markers[4] == "password"@);
        assert(markers[5] == "secret"@);
        assert(markers[6] == "token"@);
        assert(markers[7] == "x-smista"@);
        if !found {
            assert forall|m: int| 0 <= m < markers.len() implies !contains_seq(ascii_lower_seq(key@), #[trigger] markers[m]) by {
                if m == 0 {} else if m == 1 {} else if m == 2 {} else if m == 3 {}
                else if m == 4 {} else if m == 5 {} else if m == 6 {} else {}
            }
        }
    }
    found
}

/// Returns `true` when any key in the `&`-separated `query` looks like a
/// credential: the key (the text before the first `=`), lowercased, contains
/// one of the credential markers.
pub fn query_has_credential(query: &str) -> (r: bool)
    ensures
        r == spec_query_has_credential(query@),
{
    let pairs = split(query, '&');
    let mut i: usize = 0;
    while i < pairs.len()
        invariant
            i <= pairs.len(),
            pairs.deep_view() == split_on(query@, '&'),
            forall|p: int| 0 <= p < i ==> !is_credential_key(query_key(#[trigger] split_on(query@, '&')[p])),
        decreases pairs.len() - i,
    {
        let pieces = split(pairs[i].as_str(), '=');
        proof {
            lemma_split_on_nonempty(pairs[i as int]@, '=');
            assert(pairs.deep_view()[i as int] == pairs[i as int]@);
        }
        if credential_key(pieces[0].as_str()) {
            assert(pieces.deep_view()[0] == pieces[0]@);
            return true;
        }
        assert(pieces.deep_view()[0] == pieces[0]@);
        i = i + 1;
    }
    false
}

/// A character an OpenAI-compatible instance name may hold: a lowercase
/// ASCII letter, a digit, `-` or `_`.
pub open spec fn is_instance_char(c: char) -> bool {
    ('a' <= c && c <= 'z') || ('0' <= c && c <= '9') || c == '-' || c == '_'
}

/// Whether `name` is a valid OpenAI-compatible instance name: a non-empty run
/// of lowercase ASCII letters, digits, `-` and `_`.
pub open spec fn spec_is_instance_name(name: Seq<char>) -> bool {
    name.len() > 0 && forall|i: int| 0 <= i < name.len() ==> is_instance_char(#[trigger] name[i])
}

/// Returns whether `name` is a valid OpenAI-compatible instance name: a
/// non-empty run of lowercase ASCII letters, digits, `-` and `_`.
pub fn is_openai_compatible_instance_name(name: &str) -> (r: bool)
    ensures
        r == spec_is_instance_name(name@),
{
    let chars = chars_of(name);
    if chars.len() == 0 {
        return false;
    }
    let mut i: usize = 0;
    while i < chars.len()
        invariant
            i <= chars.len(),
            chars@ == name@,
            forall|j: int| 0 <= j < i ==> is_instance_char(#[trigger] chars@[j]),
        decreases chars.len() - i,
    {
        let c = chars[i];
        if !(('a' <= c && c <= 'z') || ('0' <= c && c <= '9') || c == '-' || c == '_') {
            assert(!is_instance_char(name@[i as int]));
            return false;
        }
        i = i + 1;
    }
    true
}

/// The lowercase prefix of a provider credential header name.
pub open spec fn credential_prefix() -> Seq<char> {
    "x-smista-provider-"@
}

/// The lowercase suffix of a provider credential header name.
pub open spec fn credential_suffix() -> Seq<char> {
    "-api-key"@
}

/// The `<provider>` segment of an `x-smista-provider-<provider>-api-key`
/// header name, or `None` when the name does not have that shape.
pub open spec fn header_segment(name: Seq<char>) -> Option<Seq<char>> {
    let p = credential_prefix().len();
    let s = credential_suffix().len();
    if starts_with(name, credential_prefix()) && name.len() >= p + s
        && name.subrange(name.len() - s, name.len() as int) == credential_suffix() {
        Some(name.subrange(p as int, name.len() - s))
    } else {
        None
    }
}

/// Whether `r` is the provider the (lowercase) header `name` supplies a
/// credential for.
///
/// The segment must be non-empty. A canonical provider name always wins;
/// any other segment names an OpenAI-compatible instance when it is a valid
/// instance name, and no provider otherwise.
pub open spec fn is_header_provider(r: Option<Provider>, name: Seq<char>) -> bool {
    match header_segment(name) {
        Some(segment) => if segment.len() == 0 {
            r is None
        } else {
            match canonical_provider(segment) {
                Some(p) => r == Some(p),
                None => if spec_is_instance_name(segment) {
                    r matches Some(Provider::OpenAICompatible(instance)) && instance@ == segment
                } else {
                    r is None
                },
            }
        },
        None => r is None,
    }
}

/// Parses the provider named by a credential header, or `None` when `name` is
/// not an `x-smista-provider-<provider>-api-key` header.
///
/// Header names are matched in lowercase, as HTTP renders them. The
/// `<provider>` segment is a canonical provider name (`anthropic`, `gemini`, `openai`,
/// `ollama`); any other non-empty segment names an OpenAI-compatible instance
/// when it is a valid instance name.
pub fn provider_from_header(name: &str) -> (r: Option<Provider>)
    ensures
        is_header_provider(r, name@),
{
    let chars = chars_of(name);
    let prefix = chars_of("x-smista-provider-");
    let suffix = chars_of("-api-key");
    let ghost p = credential_prefix();
    let ghost s = credential_suffix();
    proof {
        reveal_strlit("x-smista-provider-");
        reveal_strlit("-api-key");
    }
    if chars.len() < prefix.len() + suffix.len() {
        return None;
    }
    let mut i: usize = 0;
    while i < prefix.len()
        invariant
            i <= prefix.len(),
            prefix.len() + suffix.len() <= chars.len(),
            chars@ == name@,
            prefix@ == p,
            p == credential_prefix(),
            forall|j: int| 0 <= j < i ==> chars@[j] == prefix@[j],
        decreases prefix.len() - i,
    {
        if chars[i] != prefix[i] {
            assert(chars@.subrange(0, p.len() as int)[i as int] != p[i as int]);
            assert(!starts_with(name@, credential_prefix()));
            assert(header_segment(name@) is None);
            return None;
        }
        i = i + 1;
    }
    assert(chars@.subrange(0, p.len() as int) =~= p);
    let tail = chars.len() - suffix.len();
    let mut k: usize = 0;
    while k < suffix.len()
        invariant
            k <= suffix.len(),
            tail == chars.len() - suffix.len(),
            chars@ == name@,
            suffix@ == s,
            s == credential_suffix(),
            p == credential_prefix(),
            chars@.subrange(0, p.len() as int) == p,
            prefix.len() + suffix.len() <= chars.len(),
            prefix@ == p,
            forall|j: int| 0 <= j < k ==> chars@[tail + j] == suffix@[j],
        decreases suffix.len() - k,
    {
        if chars[tail + k] != suffix[k] {
            assert(chars@.subrange(tail as int, chars.len() as int)[k as int] != s[k as int]);
            assert(chars@.subrange(tail as int, chars.len() as int) != credential_suffix());
            assert(header_segment(name@) is None);
            return None;
        }
        k = k + 1;
    }
    assert(chars@.subrange(tail as int, chars.len() as int) =~= s);
    let start = prefix.len();
    if start == tail {
        return None;
    }
    let segment = crate::text::string_from(&chars, start, tail);
    assert(header_segment(name@) == Some(segment@));
    match Provider::from_canonical(segment.as_str()) {
        Some(provider) => Some(provider),
        None => {
            if is_openai_compatible_instance_name(segment.as_str()) {
                Some(Provider::OpenAICompatible(segment))
            } else {
                None
            }
        },
    }
}

} // verus!
