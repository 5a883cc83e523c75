//! Request authorization decisions: the bearer token a request presents,
//! and the error code a failed authentication is answered with.

use vstd::prelude::*;
use crate::text::{chars_of, string_from, starts_with};
use crate::types::ApiErrorCode;

verus! {

/// The `Authorization` header of a request, as far as the decision needs it.
pub enum AuthorizationHeader<'a> {
    /// The request has no `Authorization` header.
    Missing,
    /// The header is present but is not valid text.
    Unreadable,
    /// The header's text.
    Text(&'a str),
}

/// The scheme prefix of a bearer token.
pub open spec fn bearer_prefix() -> Seq<char> {
    "Bearer "@
}

/// The message a request without an `Authorization` header is refused with.
pub open spec fn missing_header_message() -> Seq<char> {
    "Authorization header is missing."@
}

/// The message a request with a non-bearer `Authorization` header is
/// refused with.
pub open spec fn wrong_scheme_message() -> Seq<char> {
    "Authorization header must start with 'Bearer '."@
}

/// Whether `r` is the outcome of reading the bearer token from `header`:
/// the text after `Bearer `, or a refusal with `missing_credentials` when
/// the header is absent and `invalid_token` when it is unreadable or of
/// another scheme.
pub open spec fn is_bearer_outcome(r: Result<String, (ApiErrorCode, &'static str)>, header: AuthorizationHeader) -> bool {
    match header {
        AuthorizationHeader::Missing => r matches Err((code, message))
            && code == ApiErrorCode::MissingCredentials && message@ == missing_header_message(),
        AuthorizationHeader::Text(text) if starts_with(text@, bearer_prefix()) => r matches Ok(token)
            && token@ == text@.skip(bearer_prefix().len() as int),
        _ => r matches Err((code, message))
            && code == ApiErrorCode::InvalidToken && message@ == wrong_scheme_message(),
    }
}

/// Reads the bearer token a request presents.
///
/// The header must be present, readable and start with the `Bearer ` scheme;
/// the token is the rest of it. An absent header is refused with
/// `missing_credentials`, any other shape with `invalid_token`.
pub fn bearer_token(header: AuthorizationHeader<'_>) -> (r: Result<String, (ApiErrorCode, &'static str)>)
    ensures
        is_bearer_outcome(r, header),
{
    let wrong_scheme = "Authorization header must start with 'Bearer '.";
    match header {
        AuthorizationHeader::Missing => Err((ApiErrorCode::MissingCredentials, "Authorization header is missing.")),
        AuthorizationHeader::Unreadable => Err((ApiErrorCode::InvalidToken, wrong_scheme)),
        AuthorizationHeader::Text(text) => {
            let chars = chars_of(text);
            let prefix = chars_of("Bearer ");
            proof {
                reveal_strlit("Bearer ");
            }
            if chars.len() < prefix.len() {
                return Err((ApiErrorCode::InvalidToken, wrong_scheme));
            }
            let mut i: usize = 0;
            while i < prefix.len()
                invariant
                    i <= prefix.len() <= chars.len(),
                    chars@ == text@,
                    prefix@ == bearer_prefix(),
                    header == AuthorizationHeader::Text(text),
                    wrong_scheme@ == wrong_scheme_message(),
                    forall|j: int| 0 <= j < i ==> chars@[j] == prefix@[j],
                decreases prefix.len() - i,
            {
                if chars[i] != prefix[i] {
                    assert(chars@.subrange(0, prefix.len() as int)[i as int] != bearer_prefix()[i as int]);
                    assert(!starts_with(text@, bearer_prefix()));
                    return Err((ApiErrorCode::InvalidToken, wrong_scheme));
                }
                i = i + 1;
            }
            assert(chars@.subrange(0, prefix.len() as int) =~= bearer_prefix());
            let token = string_from(&chars, prefix.len(), chars.len());
            assert(token@ =~= text@.skip(bearer_prefix().len() as int));
            Ok(token)
        },
    }
}

/// Why authenticating a request failed.
#[derive(Debug)]
pub enum AuthenticatorError {
    /// The session token is past its expiry.
    ExpiredToken,
    /// Authentication failed for a server-side reason.
    InternalError(String),
    /// A stored hash is malformed.
    InvalidHash,
    /// The API key is invalid.
    InvalidApiKey,
    /// No user holds the API key.
    UserNotFound,
    /// The session token is malformed, unknown or does not match.
    InvalidToken,
    /// The session token has been signed out.
    RevokedToken,
}

/// The code and message a failed authentication is answered with.
///
/// An unknown user is reported as an invalid API key, so sign-in never
/// leaks which users exist; a malformed stored hash is a server-side fault.
pub open spec fn spec_rejection(err: AuthenticatorError) -> (ApiErrorCode, Seq<char>) {
    match err {
        AuthenticatorError::ExpiredToken => (ApiErrorCode::TokenExpired, "The session token has expired."@),
        AuthenticatorError::InternalError(_) => (ApiErrorCode::InternalError, "An internal error occurred."@),
        AuthenticatorError::InvalidHash => (ApiErrorCode::InternalError, "An internal error occurred."@),
        AuthenticatorError::InvalidApiKey => (ApiErrorCode::InvalidApiKey, "The API key is invalid."@),
        AuthenticatorError::UserNotFound => (ApiErrorCode::InvalidApiKey, "The API key is invalid."@),
        AuthenticatorError::InvalidToken => (ApiErrorCode::InvalidToken, "The session token is invalid."@),
        AuthenticatorError::RevokedToken => (ApiErrorCode::TokenRevoked, "The session token has been revoked."@),
    }
}

/// The code and message a failed authentication is answered with.
///
/// The code decides the response status, not the error: a malformed stored
/// hash is a server-side fault, and an unknown user is reported as an
/// invalid API key so sign-in never leaks which users exist.
pub fn rejection_for(err: &AuthenticatorError) -> (r: (ApiErrorCode, &'static str))
    ensures
        r.0 == spec_rejection(*err).0,
        r.1@ == spec_rejection(*err).1,
{
    match err {
        AuthenticatorError::ExpiredToken => (ApiErrorCode::TokenExpired, "The session token has expired."),
        AuthenticatorError::InternalError(_) => (ApiErrorCode::InternalError, "An internal error occurred."),
        AuthenticatorError::InvalidHash => (ApiErrorCode::InternalError, "An internal error occurred."),
        AuthenticatorError::InvalidApiKey => (ApiErrorCode::InvalidApiKey, "The API key is invalid."),
        AuthenticatorError::UserNotFound => (ApiErrorCode::InvalidApiKey, "The API key is invalid."),
        AuthenticatorError::InvalidToken => (ApiErrorCode::InvalidToken, "The session token is invalid."),
        AuthenticatorError::RevokedToken => (ApiErrorCode::TokenRevoked, "The session token has been revoked."),
    }
}

} // verus!
