//! The per-provider deadline of a model listing.
//!
//! The deadline defaults to ten seconds and can be tuned per request with the
//! `x-smista-timeout-ms` header, clamped to one minute.

use vstd::prelude::*;
use crate::text::chars_of;

verus! {

/// The deadline, in milliseconds, when the caller sends none.
pub const DEFAULT_FETCH_MODELS_TIMEOUT_MS: u64 = 10_000;

/// The largest deadline, in milliseconds, a caller may ask for.
pub const MAX_FETCH_MODELS_TIMEOUT_MS: u64 = 60_000;

/// Whether `c` is an ASCII digit.
pub open spec fn is_digit(c: char) -> bool {
    '0' <= c && c <= '9'
}

/// The value of a run of ASCII digits.
pub open spec fn digits_value(s: Seq<char>) -> nat
    decreases s.len(),
{
    if s.len() == 0 {
        0
    } else {
        digits_value(s.drop_last()) * 10 + ((s.last() as u32) - ('0' as u32)) as nat
    }
}

/// The digits of an unsigned number: the text after an optional `+`.
pub open spec fn unsigned_body(s: Seq<char>) -> Seq<char> {
    if s.len() > 0 && s[0] == '+' {
        s.drop_first()
    } else {
        s
    }
}

/// What `str::parse::<u64>` reads from `s`: an optional `+` and then one or
/// more ASCII digits whose value fits in a `u64`; anything else is refused.
pub open spec fn parsed_u64(s: Seq<char>) -> Option<nat> {
    let body = unsigned_body(s);
    if body.len() > 0 && (forall|i: int| 0 <= i < body.len() ==> is_digit(#[trigger] body[i])) && digits_value(body) <= u64::MAX {
        Some(digits_value(body))
    } else {
        None
    }
}

/// A longer run of digits is worth at least as much.
proof fn lemma_digits_prefix_bound(s: Seq<char>, n: int)
    requires
        0 <= n <= s.len(),
        forall|i: int| 0 <= i < s.len() ==> is_digit(#[trigger] s[i]),
    ensures
        digits_value(s.subrange(0, n)) <= digits_value(s),
    decreases s.len() - n,
{
    if n < s.len() {
        lemma_digits_prefix_bound(s, n + 1);
        assert(s.subrange(0, n + 1).drop_last() =~= s.subrange(0, n));
    } else {
        assert(s.subrange(0, n) =~= s);
    }
}

/// Parses a decimal `u64` as `str::parse::<u64>` does.
pub fn parse_u64(s: &str) -> (r: Option<u64>)
    ensures
        match r {
            Some(v) => parsed_u64(s@) == Some(v as nat),
            None => parsed_u64(s@) is None,
        },
{
    let chars = chars_of(s);
    let start: usize = if chars.len() > 0 && chars[0] == '+' { 1 } else { 0 };
    let ghost body = unsigned_body(s@);
    assert(body =~= chars@.subrange(start as int, chars@.len() as int));
    if start == chars.len() {
        return None;
    }
    let mut value: u64 = 0;
    let mut i: usize = start;
    assert(body.subrange(0, 0) =~= Seq::<char>::empty());
    while i < chars.len()
        invariant
            start <= i <= chars.len(),
            chars@ == s@,
            body == chars@.subrange(start as int, chars@.len() as int),
            body == unsigned_body(s@),
            forall|j: int| 0 <= j < i - start ==> is_digit(#[trigger] body[j]),
            value as nat == digits_value(body.subrange(0, i - start)),
        decreases chars.len() - i,
    {
        let c = chars[i];
        if !('0' <= c && c <= '9') {
            assert(!is_digit(body[i - start]));
            return None;
        }
        let digit: u64 = ((c as u32) - ('0' as u32)) as u64;
        let ghost next = body.subrange(0, i + 1 - start);
        assert(next.drop_last() =~= body.subrange(0, i - start));
        assert(next.last() == c);
        if value > (u64::MAX - digit) / 10 {
            proof {
                assert(value * 10 + digit > u64::MAX) by (nonlinear_arith)
                    requires
                        value > (u64::MAX - digit) / 10,
                        digit <= 9,
                ;
                if forall|j: int| 0 <= j < body.len() ==> is_digit(#[trigger] body[j]) {
                    lemma_digits_prefix_bound(body, i + 1 - start);
                }
            }
            return None;
        }
        assert(value * 10 + digit <= u64::MAX) by (nonlinear_arith)
            requires
                value <= (u64::MAX - digit) / 10,
                digit <= 9,
        ;
        value = value * 10 + digit;
        i = i + 1;
    }
    assert(body.subrange(0, body.len() as int) =~= body);
    Some(value)
}

/// The deadline the `x-smista-timeout-ms` header asks for: a well-formed,
/// non-zero value clamped to the maximum, else the default.
pub open spec fn spec_timeout_ms(header: Option<Seq<char>>) -> nat {
    match header {
        Some(text) => match parsed_u64(text) {
            Some(v) => if v == 0 {
                DEFAULT_FETCH_MODELS_TIMEOUT_MS as nat
            } else if v > MAX_FETCH_MODELS_TIMEOUT_MS {
                MAX_FETCH_MODELS_TIMEOUT_MS as nat
            } else {
                v
            },
            None => DEFAULT_FETCH_MODELS_TIMEOUT_MS as nat,
        },
        None => DEFAULT_FETCH_MODELS_TIMEOUT_MS as nat,
    }
}

/// Resolves the per-provider listing deadline, in milliseconds, from the
/// `x-smista-timeout-ms` header (`None` when it is absent or not text).
///
/// A well-formed value is honored, clamped to the maximum. A missing,
/// non-numeric, zero or out-of-range value falls back to the default rather
/// than failing the request, since the deadline is a tuning hint.
pub fn resolve_timeout_ms(header: Option<&str>) -> (millis: u64)
    ensures
        millis as nat == spec_timeout_ms(
            match header {
                Some(text) => Some(text@),
                None => None,
            },
        ),
{
    match header {
        Some(text) => match parse_u64(text) {
            Some(v) => if v == 0 {
                DEFAULT_FETCH_MODELS_TIMEOUT_MS
            } else if v > MAX_FETCH_MODELS_TIMEOUT_MS {
                MAX_FETCH_MODELS_TIMEOUT_MS
            } else {
                v
            },
            None => DEFAULT_FETCH_MODELS_TIMEOUT_MS,
        },
        None => DEFAULT_FETCH_MODELS_TIMEOUT_MS,
    }
}

} // verus!
