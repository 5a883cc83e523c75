//! The context stage's deterministic token estimator.
//!
//! Context selection needs a size for every candidate to rank and trim it
//! against a model's window. This module supplies that size with a `chars / 4`
//! heuristic: pure, stable and provider-agnostic.

use vstd::prelude::*;

verus! {

/// Divisor of the estimator: roughly four characters per token.
pub const CHARS_PER_TOKEN: u64 = 4;

/// The estimated token count of a text of `chars` Unicode scalar values: the
/// character count divided by four, rounded up.
pub open spec fn token_estimate(chars: nat) -> nat {
    ((chars + 3) / 4) as nat
}

/// Estimates the number of tokens `text` occupies, deterministically.
///
/// Counts Unicode scalar values (not bytes) and divides by four, rounding up,
/// so any non-empty text costs at least one token.
pub fn estimate_tokens(text: &str) -> (tokens: u64)
    ensures
        tokens == token_estimate(text@.len()),
{
    let chars = text.unicode_len() as u64;
    let whole = chars / CHARS_PER_TOKEN;
    if chars % CHARS_PER_TOKEN == 0 {
        whole
    } else {
        whole + 1
    }
}

} // verus!
