//! Typo-tolerant keyword matching.
//!
//! Keywords are matched against the prompt's tokens (not a raw substring
//! scan) using Optimal String Alignment (OSA) edit distance, with a static,
//! length-bucketed tolerance. Everything here is deterministic: the same inputs
//! always produce the same match.

use vstd::prelude::*;
use crate::text::{
    char_is_alphanumeric, chars_of, contains_chars, contains_seq, is_alphanumeric, lowercase,
    string_from, to_lowercase,
};

verus! {

/// Largest edit distance tolerated for any keyword, whatever its length.
pub const MAX_FUZZY_DISTANCE: usize = 2;

/// The OSA edit distance `rapidfuzz::distance::osa::distance` computes between
/// the character sequences of two strings.
pub uninterp spec fn osa_distance(a: Seq<char>, b: Seq<char>) -> nat;

/// Calls `rapidfuzz::distance::osa::distance` on the characters of `a` and
/// `b`; the contract names the distance it returns.
#[verifier::external_body]
fn osa(a: &str, b: &str) -> (d: usize)
    ensures
        d as nat == osa_distance(a@, b@),
{
    rapidfuzz::distance::osa::distance(a.chars(), b.chars())
}

/// A keyword that matched a prompt token, and how it matched.
pub struct KeywordHit {
    /// The configured keyword that matched.
    pub keyword: String,
    /// `true` when the match needed a typo correction (non-zero edit distance).
    pub fuzzy: bool,
}

/// How a needle matched a token.
#[derive(Debug, Clone, Copy, PartialEq, Eq, Structural)]
pub enum MatchKind {
    /// The token equals the needle.
    Exact,
    /// The token is a typo of the needle, within tolerance.
    Fuzzy,
}

/// Whether `c` separates tokens: every non-alphanumeric character does.
pub open spec fn is_separator(c: char) -> bool {
    !char_is_alphanumeric(c)
}

/// The pieces of `s` between separators, as `str::split` with a character
/// predicate yields them: always at least one piece, possibly empty ones.
pub open spec fn split_pieces(s: Seq<char>) -> Seq<Seq<char>>
    decreases s.len(),
{
    if s.len() == 0 {
        seq![Seq::<char>::empty()]
    } else {
        let pieces = split_pieces(s.drop_last());
        if is_separator(s.last()) {
            pieces.push(Seq::<char>::empty())
        } else {
            pieces.update(pieces.len() - 1, pieces.last().push(s.last()))
        }
    }
}

/// The non-empty pieces, each lowercased, in order.
pub open spec fn lowered_tokens(pieces: Seq<Seq<char>>) -> Seq<Seq<char>>
    decreases pieces.len(),
{
    if pieces.len() == 0 {
        Seq::<Seq<char>>::empty()
    } else {
        let rest = lowered_tokens(pieces.drop_last());
        if pieces.last().len() > 0 {
            rest.push(lowercase(pieces.last()))
        } else {
            rest
        }
    }
}

/// The tokens of `text`: its lowercased runs of alphanumeric characters.
pub open spec fn spec_tokenize(text: Seq<char>) -> Seq<Seq<char>> {
    lowered_tokens(split_pieces(text))
}

/// The maximum tolerated edit distance for a keyword of `length` characters.
pub open spec fn spec_fuzzy_cap(length: nat) -> nat {
    if length <= 4 {
        0
    } else if length <= 8 {
        1
    } else {
        MAX_FUZZY_DISTANCE as nat
    }
}

/// Whether `token` is a typo of `needle` within `cap` edits: neither contains
/// the other, and the OSA distance is non-zero and at most `cap`.
pub open spec fn spec_is_typo(needle: Seq<char>, token: Seq<char>, cap: nat) -> bool {
    &&& !contains_seq(token, needle)
    &&& !contains_seq(needle, token)
    &&& osa_distance(needle, token) != 0
    &&& osa_distance(needle, token) <= cap
}

/// How `needle` matches `tokens`: exactly when its lowercase form is one of
/// them, fuzzily when it is long enough to tolerate edits and some token is a
/// typo of it, otherwise not at all.
pub open spec fn spec_token_match(needle: Seq<char>, tokens: Seq<Seq<char>>) -> Option<MatchKind> {
    let lowered = lowercase(needle);
    let cap = spec_fuzzy_cap(lowered.len());
    if tokens.contains(lowered) {
        Some(MatchKind::Exact)
    } else if cap == 0 {
        None
    } else if exists|i: int| 0 <= i < tokens.len() && spec_is_typo(lowered, tokens[i], cap) {
        Some(MatchKind::Fuzzy)
    } else {
        None
    }
}

/// Whether `needle` matches one of `tokens`, exactly or within typo tolerance.
pub open spec fn spec_token_matches(needle: Seq<char>, tokens: Seq<Seq<char>>) -> bool {
    spec_token_match(needle, tokens) is Some
}

/// Whether keyword `i` matches `tokens` in the given way.
pub open spec fn keyword_matches_as(
    keywords: Seq<Seq<char>>,
    tokens: Seq<Seq<char>>,
    i: int,
    kind: MatchKind,
) -> bool {
    spec_token_match(keywords[i], tokens) == Some(kind)
}

/// Whether keyword `i` is the first keyword that matches in the given way.
pub open spec fn first_keyword_as(
    keywords: Seq<Seq<char>>,
    tokens: Seq<Seq<char>>,
    i: int,
    kind: MatchKind,
) -> bool {
    &&& 0 <= i < keywords.len()
    &&& keyword_matches_as(keywords, tokens, i, kind)
    &&& forall|j: int| 0 <= j < i ==> !keyword_matches_as(keywords, tokens, j, kind)
}

/// Whether some keyword matches in the given way.
pub open spec fn some_keyword_as(keywords: Seq<Seq<char>>, tokens: Seq<Seq<char>>, kind: MatchKind) -> bool {
    exists|i: int| 0 <= i < keywords.len() && keyword_matches_as(keywords, tokens, i, kind)
}

/// The keyword hit `match_keyword` reports, as (keyword, fuzzy): the first
/// exactly matching keyword, else the first fuzzily matching one, else none.
pub open spec fn spec_match_keyword(keywords: Seq<Seq<char>>, tokens: Seq<Seq<char>>) -> Option<(Seq<char>, bool)> {
    if some_keyword_as(keywords, tokens, MatchKind::Exact) {
        let i = choose|i: int| first_keyword_as(keywords, tokens, i, MatchKind::Exact);
        Some((keywords[i], false))
    } else if some_keyword_as(keywords, tokens, MatchKind::Fuzzy) {
        let i = choose|i: int| first_keyword_as(keywords, tokens, i, MatchKind::Fuzzy);
        Some((keywords[i], true))
    } else {
        None
    }
}

/// A split of any text has at least one piece.
pub proof fn lemma_split_pieces_nonempty(s: Seq<char>)
    ensures
        split_pieces(s).len() >= 1,
    decreases s.len(),
{
    if s.len() > 0 {
        lemma_split_pieces_nonempty(s.drop_last());
    }
}

/// Splits `text` into lowercase, alphanumeric tokens.
///
/// Every non-alphanumeric character is a separator, so `security-review`
/// becomes `["security", "review"]`.
pub fn tokenize(text: &str) -> (tokens: Vec<String>)
    ensures
        tokens.deep_view() == spec_tokenize(text@),
{
    let chars = chars_of(text);
    let mut tokens: Vec<String> = Vec::new();
    let mut start: usize = 0;
    let mut i: usize = 0;
    proof {
        assert(chars@.subrange(0, 0) =~= Seq::<char>::empty());
        assert(tokens.deep_view() =~= Seq::<Seq<char>>::empty());
    }
    while i < chars.len()
        invariant
            start <= i <= chars.len(),
            chars@ == text@,
            split_pieces(chars@.subrange(0, i as int)).len() >= 1,
            split_pieces(chars@.subrange(0, i as int)).last() == chars@.subrange(start as int, i as int),
            tokens.deep_view() == lowered_tokens(split_pieces(chars@.subrange(0, i as int)).drop_last()),
        decreases chars.len() - i,
    {
        let ghost before = split_pieces(chars@.subrange(0, i as int));
        let ghost next = chars@.subrange(0, i + 1);
        assert(next.drop_last() =~= chars@.subrange(0, i as int));
        assert(next.last() == chars@[i as int]);
        let c = chars[i];
        if !is_alphanumeric(c) {
            if start < i {
                let piece = string_from(&chars, start, i);
                let lowered = to_lowercase(piece.as_str());
                let ghost old_tokens = tokens.deep_view();
                tokens.push(lowered);
                assert(tokens.deep_view() =~= old_tokens.push(lowered@));
            }
            start = i + 1;
            proof {
                let after = split_pieces(next);
                assert(after == before.push(Seq::<char>::empty()));
                assert(after.drop_last() =~= before);
                assert(chars@.subrange(start as int, i + 1) =~= Seq::<char>::empty());
            }
        } else {
            proof {
                let after = split_pieces(next);
                assert(after == before.update(before.len() - 1, before.last().push(c)));
                assert(after.drop_last() =~= before.drop_last());
                assert(chars@.subrange(start as int, i + 1) =~= chars@.subrange(start as int, i as int).push(c));
            }
        }
        i = i + 1;
    }
    proof {
        assert(chars@.subrange(0, chars@.len() as int) =~= chars@);
    }
    if start < chars.len() {
        let piece = string_from(&chars, start, chars.len());
        let lowered = to_lowercase(piece.as_str());
        let ghost old_tokens = tokens.deep_view();
        tokens.push(lowered);
        assert(tokens.deep_view() =~= old_tokens.push(lowered@));
    }
    tokens
}

/// The maximum tolerated edit distance for a keyword of `length` characters.
///
/// Keywords shorter than five characters must match exactly (so `edit` never
/// matches `audit`); longer ones tolerate one edit, and nine or more tolerate
/// two.
pub fn fuzzy_cap(length: usize) -> (cap: usize)
    ensures
        cap as nat == spec_fuzzy_cap(length as nat),
{
    if length <= 4 {
        0
    } else if length <= 8 {
        1
    } else {
        MAX_FUZZY_DISTANCE
    }
}

/// Whether `token` is a typo of `needle` within `cap` edits.
///
/// A substring relationship (one string wholly contains the other) is taken to
/// be a different word, not a typo, so `preview` never matches `review`.
pub fn is_typo(needle: &str, token: &str, cap: usize) -> (r: bool)
    ensures
        r == spec_is_typo(needle@, token@, cap as nat),
{
    let n = chars_of(needle);
    let t = chars_of(token);
    if contains_chars(&t, &n) || contains_chars(&n, &t) {
        return false;
    }
    let distance: usize = osa(needle, token);
    within_tolerance(distance, cap)
}

/// Whether an edit distance counts as a typo under a tolerance of `cap`
/// edits: the strings differ, by at most `cap` edits.
pub fn within_tolerance(distance: usize, cap: usize) -> (r: bool)
    ensures
        r == (distance != 0 && distance <= cap),
{
    distance != 0 && distance <= cap
}

/// Whether `tokens` holds a token equal to `needle`.
pub fn contains_token(tokens: &Vec<String>, needle: &String) -> (r: bool)
    ensures
        r == tokens.deep_view().contains(needle@),
{
    let mut i: usize = 0;
    while i < tokens.len()
        invariant
            i <= tokens.len(),
            forall|j: int| 0 <= j < i ==> tokens.deep_view()[j] != needle@,
        decreases tokens.len() - i,
    {
        if tokens[i] == *needle {
            assert(tokens.deep_view()[i as int] == needle@);
            return true;
        }
        i = i + 1;
    }
    false
}

/// Classifies how `needle` matches the closest of `tokens`, if at all.
pub fn token_match(needle: &str, tokens: &Vec<String>) -> (r: Option<MatchKind>)
    ensures
        r == spec_token_match(needle@, tokens.deep_view()),
{
    let lowered = to_lowercase(needle);
    if contains_token(tokens, &lowered) {
        return Some(MatchKind::Exact);
    }
    let length = lowered.as_str().unicode_len();
    let cap = fuzzy_cap(length);
    if cap == 0 {
        return None;
    }
    let mut i: usize = 0;
    while i < tokens.len()
        invariant
            i <= tokens.len(),
            cap as nat == spec_fuzzy_cap(lowered@.len()),
            lowered@ == lowercase(needle@),
            !tokens.deep_view().contains(lowered@),
            forall|j: int| 0 <= j < i ==> !spec_is_typo(lowered@, tokens.deep_view()[j], cap as nat),
        decreases tokens.len() - i,
    {
        if is_typo(lowered.as_str(), tokens[i].as_str(), cap) {
            assert(spec_is_typo(lowered@, tokens.deep_view()[i as int], cap as nat));
            assert(exists|k: int| 0 <= k < tokens.deep_view().len() && spec_is_typo(lowered@, tokens.deep_view()[k], cap as nat));
            return Some(MatchKind::Fuzzy);
        }
        i = i + 1;
    }
    None
}

/// Whether `needle` matches any of `tokens`, exactly or within typo tolerance.
pub fn token_matches(needle: &str, tokens: &Vec<String>) -> (r: bool)
    ensures
        r == spec_token_matches(needle@, tokens.deep_view()),
{
    token_match(needle, tokens).is_some()
}

/// Finds the first keyword that matches in the given way.
fn first_keyword(keywords: &Vec<String>, tokens: &Vec<String>, kind: MatchKind) -> (r: Option<usize>)
    ensures
        match r {
            Some(i) => first_keyword_as(keywords.deep_view(), tokens.deep_view(), i as int, kind),
            None => !some_keyword_as(keywords.deep_view(), tokens.deep_view(), kind),
        },
{
    let mut i: usize = 0;
    while i < keywords.len()
        invariant
            i <= keywords.len(),
            forall|j: int| 0 <= j < i ==> !keyword_matches_as(keywords.deep_view(), tokens.deep_view(), j, kind),
        decreases keywords.len() - i,
    {
        let m = token_match(keywords[i].as_str(), tokens);
        if m == Some(kind) {
            return Some(i);
        }
        i = i + 1;
    }
    None
}

/// Finds the first keyword that matches a prompt token.
///
/// An exact match is preferred over a typo match, so an exact hit never gets
/// its confidence needlessly capped: the keywords are scanned once for an
/// exact hit, then once for a fuzzy one.
pub fn match_keyword(keywords: &Vec<String>, tokens: &Vec<String>) -> (hit: Option<KeywordHit>)
    ensures
        match hit {
            Some(h) => spec_match_keyword(keywords.deep_view(), tokens.deep_view()) == Some((h.keyword@, h.fuzzy)),
            None => spec_match_keyword(keywords.deep_view(), tokens.deep_view()) is None,
        },
{
    let ghost kw = keywords.deep_view();
    let ghost tk = tokens.deep_view();
    match first_keyword(keywords, tokens, MatchKind::Exact) {
        Some(i) => {
            proof {
                let k = choose|k: int| first_keyword_as(kw, tk, k, MatchKind::Exact);
                if k < i {
                    assert(!keyword_matches_as(kw, tk, k, MatchKind::Exact));
                } else if i < k {
                    assert(!keyword_matches_as(kw, tk, i as int, MatchKind::Exact));
                }
            }
            Some(KeywordHit { keyword: keywords[i].clone(), fuzzy: false })
        },
        None => match first_keyword(keywords, tokens, MatchKind::Fuzzy) {
            Some(i) => {
                proof {
                    let k = choose|k: int| first_keyword_as(kw, tk, k, MatchKind::Fuzzy);
                    if k < i {
                        assert(!keyword_matches_as(kw, tk, k, MatchKind::Fuzzy));
                    } else if i < k {
                        assert(!keyword_matches_as(kw, tk, i as int, MatchKind::Fuzzy));
                    }
                }
                Some(KeywordHit { keyword: keywords[i].clone(), fuzzy: true })
            },
            None => None,
        },
    }
}

} // verus!
