//! Properties the routing stages keep across all inputs.

use vstd::prelude::*;
use crate::authorization::{bearer_prefix, is_bearer_outcome, AuthorizationHeader};
use crate::credentials::{credential_prefix, credential_suffix, header_segment, is_header_provider, spec_is_instance_name};
use crate::listing::{spec_timeout_ms, MAX_FETCH_MODELS_TIMEOUT_MS};
use crate::streaming::spec_chunk_in_two;
use crate::text::starts_with;
use crate::usage::{
    costs_of, holds_model, is_session_usage, lemma_model_firsts_seen, model_costs, model_firsts, model_key,
    tally_of, task_costs, task_types, CostEvent, CostPayload, ModelUsage, TaskTypeUsage,
};
use crate::types::{canonical_provider, provider_name, same_reference};
use crate::context::{
    first_with_key, fit_in_order, insert_by_score, is_finalized, reasons, reference_view, lemma_first_with_key_in_range,
    lemma_with_required_total, message_view, required_total, sort_by_score, spec_budget,
    spec_dedupe, spec_dedupe_key, spec_has_restricted, spec_supersedes, spec_recency_bonus, total_tokens,
    with_required, CandidateView, RecalledMessage, MAX_RECENCY_BONUS, SCORE_DIFF, SCORE_MEMORY,
};
use crate::estimator::token_estimate;
use crate::context::{
    diff_view, file_view, instruction_view, memory_view, raw_candidates, skill_view, spec_path_in_focus,
    MemoryFact, RecalledContext, PATH_AFFINITY_BONUS, SCORE_AVAILABLE_SKILL, SCORE_FILE, SCORE_MESSAGE,
};
use crate::resolver::{Attachments, ContextFile, ContextInstruction};
use crate::types::{permissions_view, spec_restricted_for_remote, Skill};
use crate::context::ContextError;
use crate::fuzzy::{spec_token_match, spec_tokenize, MatchKind};
use crate::signals::spec_context_kinds;
use crate::model_selector::{
    candidate_usable, candidates, catalog_lookup, is_catalog_entry, is_selection, override_refused,
    spec_local_required, ModelSelection,
};
use crate::types::{descriptor_reference, reference_id};
use crate::normalizer::{is_classification, is_winning_rule, NormalizedTask};
use crate::policy_matcher::{
    is_policy_route, is_winning_route_rule, takes_precedence, route_fallbacks, route_is_override, route_model, route_rule,
    some_rule_matches, RouteMatch,
};
use crate::resolver::{
    after_first, described, route_permissions, spec_routing_decision, is_normalized, is_resolution, is_route_for, is_routed_resolution, turn_requirements,
    turn_restricted, ResolveArgs, ResolvedTurn, Workspace,
};
use crate::text::lowercase;
use crate::types::{
    Classification, ClassificationConfig, IntentSource, ModelDescriptor, ModelReference,
    PrivacyPolicy, Provider, RoutingPolicy, RoutingRequirements, TaskIntent,
};

verus! {

/// Any non-empty text costs at least one token, and the estimate never
/// undercounts: four tokens' worth of characters always covers the text.
pub proof fn estimate_covers_text(chars: nat)
    ensures
        chars > 0 ==> token_estimate(chars) >= 1,
        token_estimate(chars) * 4 >= chars,
        token_estimate(chars) * 4 < chars + 4,
{
}

/// A keyword of at most four characters only ever matches exactly: it matches
/// exactly when its lowercase form is one of the prompt's tokens, and never
/// through a typo.
pub proof fn short_keywords_match_exactly(needle: Seq<char>, tokens: Seq<Seq<char>>)
    requires
        lowercase(needle).len() <= 4,
    ensures
        spec_token_match(needle, tokens) is Some <==> tokens.contains(lowercase(needle)),
        spec_token_match(needle, tokens) != Some(MatchKind::Fuzzy),
{
}

/// An exact match always wins over a typo: a keyword whose lowercase form is
/// one of the tokens matches exactly, whatever else the tokens hold.
pub proof fn exact_match_wins(needle: Seq<char>, tokens: Seq<Seq<char>>)
    requires
        tokens.contains(lowercase(needle)),
    ensures
        spec_token_match(needle, tokens) == Some(MatchKind::Exact),
{
}

/// An explicit command decides the intent outright, whatever the rules say.
pub proof fn explicit_command_wins(
    c: Classification,
    intent: TaskIntent,
    tokens: Seq<Seq<char>>,
    contexts: Seq<Seq<char>>,
    config: ClassificationConfig,
)
    requires
        is_classification(c, Some(intent), tokens, contexts, config),
    ensures
        c.intent == intent,
        c.source == IntentSource::Explicit,
        c.matched_rule is None,
{
}

/// The recency bonus of a message stays within its range and never decreases
/// with recency: a newer message earns at least the bonus of an older one.
pub proof fn recency_bonus_is_bounded_and_monotone(older: nat, newer: nat, count: nat)
    requires
        older <= newer < count,
    ensures
        spec_recency_bonus(newer, count) <= MAX_RECENCY_BONUS,
        spec_recency_bonus(older, count) <= spec_recency_bonus(newer, count),
{
    if count > 1 {
        let d = (count - 1) as int;
        assert(older * (MAX_RECENCY_BONUS as int) <= newer * (MAX_RECENCY_BONUS as int)) by (nonlinear_arith)
            requires
                older <= newer,
        ;
        assert(newer * (MAX_RECENCY_BONUS as int) <= d * (MAX_RECENCY_BONUS as int)) by (nonlinear_arith)
            requires
                newer <= d,
        ;
        vstd::arithmetic::div_mod::lemma_div_is_ordered(
            older * (MAX_RECENCY_BONUS as int),
            newer * (MAX_RECENCY_BONUS as int),
            d,
        );
        vstd::arithmetic::div_mod::lemma_div_is_ordered(
            newer * (MAX_RECENCY_BONUS as int),
            d * (MAX_RECENCY_BONUS as int),
            d,
        );
        vstd::arithmetic::div_mod::lemma_div_multiples_vanish(MAX_RECENCY_BONUS as int, d);
    }
}

/// Recency and path affinity never lift a history message out of its tier:
/// its score stays above every memory fact's and below the git diff's.
pub proof fn message_scores_stay_in_their_tier(
    route: RouteMatch,
    workspace: Workspace,
    privacy: PrivacyPolicy,
    message: RecalledMessage,
    index: nat,
    count: nat,
)
    requires
        index < count,
    ensures
        SCORE_MEMORY < message_view(route, workspace, privacy, message, index, count).score,
        message_view(route, workspace, privacy, message, index, count).score < SCORE_DIFF,
{
    recency_bonus_is_bounded_and_monotone(index, index, count);
}

/// When the turn is restricted to local models, a successful selection always
/// picks a local model: restricted content never reaches a remote provider.
pub proof fn restricted_selection_is_local(
    selection: ModelSelection,
    route: RouteMatch,
    requirements: RoutingRequirements,
    catalog: Seq<ModelDescriptor>,
    credentialed: Seq<Provider>,
)
    requires
        is_selection(Ok(selection), route, requirements, catalog, credentialed, true),
    ensures
        selection.model.local,
{
}

/// An explicit model override always wins, whatever rule matches, and
/// carries no fallback chain.
pub proof fn override_wins_without_fallbacks(
    route: RouteMatch,
    task: NormalizedTask,
    policy: RoutingPolicy,
    model: ModelReference,
)
    requires
        is_route_for(route, task, policy, Some(model)),
    ensures
        route_is_override(route),
        route_model(route) == model,
        route_fallbacks(route) == Seq::<ModelReference>::empty(),
{
}

/// The candidates filtered by requiredness hold exactly the candidates with
/// that mark.
proof fn lemma_with_required_members(s: Seq<CandidateView>, flag: bool)
    ensures
        forall|i: int| 0 <= i < s.len() && (#[trigger] s[i]).required == flag ==> with_required(s, flag).contains(s[i]),
        forall|c: CandidateView| #[trigger] with_required(s, flag).contains(c) ==> c.required == flag && s.contains(c),
    decreases s.len(),
{
    if s.len() > 0 {
        let prev = s.drop_last();
        lemma_with_required_members(prev, flag);
        let rest = with_required(prev, flag);
        assert forall|i: int| 0 <= i < s.len() && (#[trigger] s[i]).required == flag implies with_required(s, flag).contains(s[i]) by {
            if i < s.len() - 1 {
                assert(prev[i] == s[i]);
                let k = choose|k: int| 0 <= k < rest.len() && rest[k] == prev[i];
                if s.last().required == flag {
                    assert(rest.push(s.last())[k] == s[i]);
                }
            } else {
                assert(rest.push(s.last())[rest.len() as int] == s[i]);
            }
        }
        assert forall|c: CandidateView| #[trigger] with_required(s, flag).contains(c) implies c.required == flag && s.contains(c) by {
            let k = choose|k: int| 0 <= k < with_required(s, flag).len() && with_required(s, flag)[k] == c;
            if k < rest.len() {
                assert(rest.contains(c));
                let j = choose|j: int| 0 <= j < prev.len() && prev[j] == c;
                assert(s[j] == c);
            } else {
                assert(s[s.len() - 1] == c);
            }
        }
    }
}

/// The total of two candidate lists is the sum of their totals.
proof fn lemma_total_concat(a: Seq<CandidateView>, b: Seq<CandidateView>)
    ensures
        total_tokens(a + b) == total_tokens(a) + total_tokens(b),
    decreases b.len(),
{
    if b.len() > 0 {
        lemma_total_concat(a, b.drop_last());
        assert((a + b).drop_last() =~= a + b.drop_last());
    } else {
        assert(a + b =~= a);
    }
}

/// Inserting by score adds exactly the one candidate.
proof fn lemma_insert_members(sorted: Seq<CandidateView>, c: CandidateView)
    ensures
        insert_by_score(sorted, c).len() == sorted.len() + 1,
        forall|x: CandidateView| #[trigger] insert_by_score(sorted, c).contains(x) ==> x == c || sorted.contains(x),
    decreases sorted.len(),
{
    if sorted.len() > 0 && sorted.last().score < c.score {
        let prev = sorted.drop_last();
        lemma_insert_members(prev, c);
        let inner = insert_by_score(prev, c);
        assert forall|x: CandidateView| #[trigger] insert_by_score(sorted, c).contains(x) implies x == c || sorted.contains(x) by {
            let k = choose|k: int| 0 <= k < inner.push(sorted.last()).len() && inner.push(sorted.last())[k] == x;
            if k < inner.len() {
                assert(inner.contains(x));
                if x != c {
                    let j = choose|j: int| 0 <= j < prev.len() && prev[j] == x;
                    assert(sorted[j] == x);
                }
            } else {
                assert(sorted[sorted.len() - 1] == x);
            }
        }
    } else if sorted.len() > 0 {
        assert forall|x: CandidateView| #[trigger] insert_by_score(sorted, c).contains(x) implies x == c || sorted.contains(x) by {
            let k = choose|k: int| 0 <= k < sorted.push(c).len() && sorted.push(c)[k] == x;
            if k < sorted.len() {
                assert(sorted[k] == x);
            }
        }
    } else {
        assert forall|x: CandidateView| #[trigger] insert_by_score(sorted, c).contains(x) implies x == c || sorted.contains(x) by {
            assert(seq![c][0] == c);
        }
    }
}

/// Sorting by score keeps the number of candidates and adds none.
proof fn lemma_sort_members(s: Seq<CandidateView>)
    ensures
        sort_by_score(s).len() == s.len(),
        forall|x: CandidateView| #[trigger] sort_by_score(s).contains(x) ==> s.contains(x),
    decreases s.len(),
{
    if s.len() > 0 {
        let prev = s.drop_last();
        lemma_sort_members(prev);
        lemma_insert_members(sort_by_score(prev), s.last());
        assert forall|x: CandidateView| #[trigger] sort_by_score(s).contains(x) implies s.contains(x) by {
            if x == s.last() {
                assert(s[s.len() - 1] == x);
            } else {
                assert(sort_by_score(prev).contains(x));
                let j = choose|j: int| 0 <= j < prev.len() && prev[j] == x;
                assert(s[j] == x);
            }
        }
    }
}

/// Fitting in order splits the candidates in two, keeps the included ones
/// within the budget, and adds none.
proof fn lemma_fit_in_order(sorted: Seq<CandidateView>, used: nat, budget: nat)
    requires
        used <= budget,
    ensures
        used + total_tokens(fit_in_order(sorted, used, budget).0) <= budget,
        fit_in_order(sorted, used, budget).0.len() + fit_in_order(sorted, used, budget).1.len() == sorted.len(),
        forall|x: CandidateView| #[trigger] fit_in_order(sorted, used, budget).0.contains(x) ==> sorted.contains(x),
    decreases sorted.len(),
{
    if sorted.len() > 0 {
        let c = sorted[0];
        let tail = sorted.drop_first();
        let next = if used + c.estimated_tokens <= budget { used + c.estimated_tokens } else { used };
        lemma_fit_in_order(tail, next, budget);
        let rest = fit_in_order(tail, next, budget);
        if used + c.estimated_tokens <= budget {
            lemma_total_concat(seq![c], rest.0);
            assert(total_tokens(seq![c]) == c.estimated_tokens) by {
                assert(seq![c].drop_last() =~= Seq::<CandidateView>::empty());
                assert(total_tokens(seq![c].drop_last()) == 0);
            }
            assert forall|x: CandidateView| #[trigger] (seq![c] + rest.0).contains(x) implies sorted.contains(x) by {
                let k = choose|k: int| 0 <= k < (seq![c] + rest.0).len() && (seq![c] + rest.0)[k] == x;
                if k == 0 {
                    assert(sorted[0] == x);
                } else {
                    assert(rest.0[k - 1] == x);
                    assert(rest.0.contains(x));
                    let j = choose|j: int| 0 <= j < tail.len() && tail[j] == x;
                    assert(sorted[j + 1] == x);
                }
            }
        } else {
            assert forall|x: CandidateView| #[trigger] rest.0.contains(x) implies sorted.contains(x) by {
                let j = choose|j: int| 0 <= j < tail.len() && tail[j] == x;
                assert(sorted[j + 1] == x);
            }
        }
    }
}

/// Finalizing never drops a required candidate: every required candidate is
/// among the included ones.
pub proof fn finalize_keeps_every_required_candidate(
    r: crate::context::ResolvedContext,
    candidates: Seq<CandidateView>,
    model: ModelDescriptor,
)
    requires
        is_finalized(r, candidates, model),
    ensures
        forall|i: int| 0 <= i < candidates.len() && (#[trigger] candidates[i]).required ==> r.included.deep_view().contains(candidates[i]),
{
    let required = with_required(candidates, true);
    let fitted = fit_in_order(sort_by_score(with_required(candidates, false)), required_total(candidates), spec_budget(model));
    lemma_with_required_members(candidates, true);
    assert forall|i: int| 0 <= i < candidates.len() && (#[trigger] candidates[i]).required implies r.included.deep_view().contains(candidates[i]) by {
        assert(required.contains(candidates[i]));
        let k = choose|k: int| 0 <= k < required.len() && required[k] == candidates[i];
        assert((required + fitted.0)[k] == candidates[i]);
    }
}

/// Finalized context fits the model's budget, and includes nothing but the
/// candidates it was given.
pub proof fn finalized_context_fits_the_budget(
    r: crate::context::ResolvedContext,
    candidates: Seq<CandidateView>,
    model: ModelDescriptor,
)
    requires
        is_finalized(r, candidates, model),
        required_total(candidates) <= spec_budget(model),
    ensures
        total_tokens(r.included.deep_view()) <= spec_budget(model),
        forall|x: CandidateView| #[trigger] r.included.deep_view().contains(x) ==> candidates.contains(x),
{
    let required = with_required(candidates, true);
    let discardable = with_required(candidates, false);
    let sorted = sort_by_score(discardable);
    let fitted = fit_in_order(sorted, required_total(candidates), spec_budget(model));
    lemma_with_required_total(candidates);
    lemma_fit_in_order(sorted, required_total(candidates), spec_budget(model));
    lemma_total_concat(required, fitted.0);
    lemma_with_required_members(candidates, true);
    lemma_with_required_members(candidates, false);
    lemma_sort_members(discardable);
    assert forall|x: CandidateView| #[trigger] r.included.deep_view().contains(x) implies candidates.contains(x) by {
        let k = choose|k: int| 0 <= k < (required + fitted.0).len() && (required + fitted.0)[k] == x;
        if k < required.len() {
            assert(required[k] == x);
            assert(required.contains(x));
        } else {
            assert(fitted.0[k - required.len()] == x);
            assert(fitted.0.contains(x));
            assert(sorted.contains(x));
            assert(discardable.contains(x));
        }
    }
}

/// Finalizing accounts for every candidate: each is recorded once, as
/// included or excluded.
pub proof fn finalize_accounts_for_every_candidate(
    r: crate::context::ResolvedContext,
    candidates: Seq<CandidateView>,
    model: ModelDescriptor,
)
    requires
        is_finalized(r, candidates, model),
        required_total(candidates) <= spec_budget(model),
    ensures
        r.references.len() == candidates.len(),
        r.outcome.included.len() + r.outcome.excluded.len() == candidates.len(),
{
    let required = with_required(candidates, true);
    let discardable = with_required(candidates, false);
    let sorted = sort_by_score(discardable);
    lemma_split_by_required(candidates);
    lemma_sort_members(discardable);
    lemma_fit_in_order(sorted, required_total(candidates), spec_budget(model));
    assert(r.references.deep_view().len() == r.references.len());
    assert(r.outcome.included.deep_view().len() == r.outcome.included.len());
    assert(r.outcome.excluded.deep_view().len() == r.outcome.excluded.len());
}

/// Finalizing splits the candidates into the included ones and the excluded
/// ones, together a rearrangement of the candidates; the references list the
/// included then the excluded ones, the outcome gives the excluded reasons,
/// and every excluded candidate is discardable and would no longer fit: the
/// included total plus its size exceeds the budget. So any discardable
/// candidate left out would not have fitted.
pub proof fn finalize_excludes_only_what_does_not_fit(
    r: crate::context::ResolvedContext,
    candidates: Seq<CandidateView>,
    model: ModelDescriptor,
)
    requires
        is_finalized(r, candidates, model),
        required_total(candidates) <= spec_budget(model),
    ensures
        exists|excluded: Seq<CandidateView>| {
            &&& #[trigger] (r.included.deep_view() + excluded).to_multiset() == candidates.to_multiset()
            &&& r.references.deep_view() == r.included.deep_view().map_values(|c: CandidateView| reference_view(c, true))
                + excluded.map_values(|c: CandidateView| reference_view(c, false))
            &&& r.outcome.excluded.deep_view() == reasons(excluded)
            &&& forall|k: int| 0 <= k < excluded.len() ==> !(#[trigger] excluded[k]).required
                && total_tokens(r.included.deep_view()) + excluded[k].estimated_tokens > spec_budget(model)
        },
        forall|i: int| 0 <= i < candidates.len() && !(#[trigger] candidates[i]).required
            && !r.included.deep_view().contains(candidates[i])
            ==> total_tokens(r.included.deep_view()) + candidates[i].estimated_tokens > spec_budget(model),
{
    broadcast use vstd::seq_lib::group_to_multiset_ensures, vstd::multiset::group_multiset_axioms;
    let budget = spec_budget(model);
    let required = with_required(candidates, true);
    let discardable = with_required(candidates, false);
    let sorted = sort_by_score(discardable);
    let fitted = fit_in_order(sorted, required_total(candidates), budget);
    let included = required + fitted.0;
    let excluded = fitted.1;
    lemma_with_required_total(candidates);
    lemma_fit_in_order(sorted, required_total(candidates), budget);
    lemma_total_concat(required, fitted.0);
    lemma_split_multiset(candidates);
    lemma_sort_multiset(discardable);
    lemma_fit_multiset(sorted, required_total(candidates), budget);
    lemma_fit_excluded(sorted, required_total(candidates), budget);
    lemma_with_required_members(candidates, false);
    lemma_sort_members(discardable);
    vstd::seq_lib::lemma_multiset_commutative(included, excluded);
    vstd::seq_lib::lemma_multiset_commutative(required, fitted.0);
    assert(r.included.deep_view() == included);
    assert((included + excluded).to_multiset() =~= candidates.to_multiset());
    assert forall|k: int| 0 <= k < excluded.len() implies !(#[trigger] excluded[k]).required
        && total_tokens(included) + excluded[k].estimated_tokens > budget by {
        assert(excluded.to_multiset().count(excluded[k]) > 0);
        assert(sorted.to_multiset().count(excluded[k]) > 0);
        assert(sorted.contains(excluded[k]));
        assert(discardable.contains(excluded[k]));
    }
    assert forall|i: int| 0 <= i < candidates.len() && !(#[trigger] candidates[i]).required
        && !r.included.deep_view().contains(candidates[i])
        implies total_tokens(r.included.deep_view()) + candidates[i].estimated_tokens > budget by {
        let c = candidates[i];
        assert(candidates.to_multiset().count(c) > 0);
        assert(included.to_multiset().count(c) == 0);
        assert(excluded.to_multiset().count(c) > 0);
        assert(excluded.contains(c));
        let k = choose|k: int| 0 <= k < excluded.len() && excluded[k] == c;
        assert(!excluded[k].required);
    }
}

/// Finalized context lists the required candidates first, then the
/// discardable ones it kept, most relevant first.
pub proof fn finalize_orders_included_by_relevance(
    r: crate::context::ResolvedContext,
    candidates: Seq<CandidateView>,
    model: ModelDescriptor,
)
    requires
        is_finalized(r, candidates, model),
    ensures
        forall|i: int, j: int| 0 <= i < j < r.included.deep_view().len() && !(#[trigger] r.included.deep_view()[i]).required
            ==> !(#[trigger] r.included.deep_view()[j]).required && r.included.deep_view()[i].score >= r.included.deep_view()[j].score,
{
    let required = with_required(candidates, true);
    let sorted = sort_by_score(with_required(candidates, false));
    let fitted = fit_in_order(sorted, required_total(candidates), spec_budget(model));
    let inc = r.included.deep_view();
    lemma_with_required_flags(candidates, true);
    lemma_with_required_flags(candidates, false);
    lemma_sort_sorted(with_required(candidates, false));
    lemma_sort_members(with_required(candidates, false));
    lemma_fit_sorted(sorted, required_total(candidates), spec_budget(model));
    assert(inc == required + fitted.0);
    assert forall|i: int, j: int| 0 <= i < j < inc.len() && !(#[trigger] inc[i]).required
        implies !(#[trigger] inc[j]).required && inc[i].score >= inc[j].score by {
        assert(i >= required.len());
        assert(inc[i] == fitted.0[i - required.len()]);
        assert(inc[j] == fitted.0[j - required.len()]);
    }
}

/// The candidates with score `v`, in order.
pub open spec fn with_score(s: Seq<CandidateView>, v: nat) -> Seq<CandidateView>
    decreases s.len(),
{
    if s.len() == 0 {
        Seq::empty()
    } else {
        (if s[0].score == v { seq![s[0]] } else { Seq::empty() }) + with_score(s.drop_first(), v)
    }
}

/// Whether `a` is `b` with some candidates left out, the rest in order.
pub open spec fn is_subsequence(a: Seq<CandidateView>, b: Seq<CandidateView>) -> bool
    decreases b.len(),
{
    if a.len() == 0 {
        true
    } else if b.len() == 0 {
        false
    } else if a[0] == b[0] {
        is_subsequence(a.drop_first(), b.drop_first())
    } else {
        is_subsequence(a, b.drop_first())
    }
}

/// Finalizing keeps equally relevant discardable candidates in their input
/// order: for every score, the included discardable candidates with that
/// score are the input's discardable candidates with that score, some left
/// out, the rest in the same order.
pub proof fn finalize_keeps_equal_scores_in_input_order(
    r: crate::context::ResolvedContext,
    candidates: Seq<CandidateView>,
    model: ModelDescriptor,
    score: nat,
)
    requires
        is_finalized(r, candidates, model),
    ensures
        is_subsequence(
            with_score(with_required(r.included.deep_view(), false), score),
            with_score(with_required(candidates, false), score),
        ),
{
    let required = with_required(candidates, true);
    let discardable = with_required(candidates, false);
    let sorted = sort_by_score(discardable);
    let fitted = fit_in_order(sorted, required_total(candidates), spec_budget(model));
    lemma_with_required_flags(candidates, true);
    lemma_with_required_flags(candidates, false);
    lemma_sort_sorted(discardable);
    lemma_fit_sorted(sorted, required_total(candidates), spec_budget(model));
    lemma_with_required_concat(required, fitted.0);
    lemma_with_required_all(required, false);
    lemma_with_required_all(fitted.0, false);
    assert(with_required(required + fitted.0, false) =~= fitted.0);
    lemma_with_score_sort(discardable, score);
    lemma_fit_subsequence(sorted, required_total(candidates), spec_budget(model), score);
}

/// Filtering by requiredness distributes over joining two lists.
proof fn lemma_with_required_concat(a: Seq<CandidateView>, b: Seq<CandidateView>)
    ensures
        with_required(a + b, false) == with_required(a, false) + with_required(b, false),
    decreases b.len(),
{
    if b.len() == 0 {
        assert(a + b =~= a);
        assert(with_required(a, false) + with_required(b, false) =~= with_required(a, false));
    } else {
        lemma_with_required_concat(a, b.drop_last());
        assert((a + b).drop_last() =~= a + b.drop_last());
        assert((a + b).last() == b.last());
        let x = with_required(a, false);
        let y = with_required(b.drop_last(), false);
        assert((x + y).push(b.last()) =~= x + y.push(b.last()));
    }
}

/// Keeping the discardable candidates of a list that is all of one kind
/// keeps all of it or none of it.
proof fn lemma_with_required_all(s: Seq<CandidateView>, flag: bool)
    ensures
        (forall|i: int| 0 <= i < s.len() ==> !(#[trigger] s[i]).required) ==> with_required(s, flag) == if flag { Seq::empty() } else { s },
        (forall|i: int| 0 <= i < s.len() ==> (#[trigger] s[i]).required) ==> with_required(s, flag) == if flag { s } else { Seq::empty() },
    decreases s.len(),
{
    if s.len() > 0 {
        let prev = s.drop_last();
        lemma_with_required_all(prev, flag);
        if forall|i: int| 0 <= i < s.len() ==> !(#[trigger] s[i]).required {
            assert(forall|i: int| 0 <= i < prev.len() ==> !(#[trigger] prev[i]).required) by {
                assert forall|i: int| 0 <= i < prev.len() implies !(#[trigger] prev[i]).required by {
                    assert(prev[i] == s[i]);
                }
            }
            assert(s.last() == s[s.len() - 1]);
            assert(prev.push(s.last()) =~= s);
        }
        if forall|i: int| 0 <= i < s.len() ==> (#[trigger] s[i]).required {
            assert(forall|i: int| 0 <= i < prev.len() ==> (#[trigger] prev[i]).required) by {
                assert forall|i: int| 0 <= i < prev.len() implies (#[trigger] prev[i]).required by {
                    assert(prev[i] == s[i]);
                }
            }
            assert(s.last() == s[s.len() - 1]);
            assert(prev.push(s.last()) =~= s);
        }
    }
}

/// Filtering by score after appending a candidate.
proof fn lemma_with_score_push(s: Seq<CandidateView>, x: CandidateView, v: nat)
    ensures
        with_score(s.push(x), v) == with_score(s, v) + (if x.score == v { seq![x] } else { Seq::empty() }),
    decreases s.len(),
{
    let tail: Seq<CandidateView> = if x.score == v { seq![x] } else { Seq::empty() };
    if s.len() == 0 {
        assert(s.push(x).drop_first() =~= Seq::<CandidateView>::empty());
        assert(with_score(s.push(x).drop_first(), v) == Seq::<CandidateView>::empty());
        assert(with_score(s.push(x), v) =~= tail);
        assert(with_score(s, v) + tail =~= tail);
    } else {
        lemma_with_score_push(s.drop_first(), x, v);
        assert(s.push(x).drop_first() =~= s.drop_first().push(x));
        assert(s.push(x)[0] == s[0]);
        let head: Seq<CandidateView> = if s[0].score == v { seq![s[0]] } else { Seq::empty() };
        assert(head + (with_score(s.drop_first(), v) + tail) =~= (head + with_score(s.drop_first(), v)) + tail);
    }
}

/// Inserting by score puts the candidate after every candidate with its
/// score, so each score keeps its order.
proof fn lemma_with_score_insert(sorted: Seq<CandidateView>, c: CandidateView, v: nat)
    ensures
        with_score(insert_by_score(sorted, c), v) == with_score(sorted, v) + (if c.score == v { seq![c] } else { Seq::empty() }),
    decreases sorted.len(),
{
    if sorted.len() == 0 {
        lemma_with_score_push(sorted, c, v);
        assert(sorted.push(c) =~= seq![c]);
    } else if sorted.last().score >= c.score {
        lemma_with_score_push(sorted, c, v);
    } else {
        let prev = sorted.drop_last();
        let last = sorted.last();
        lemma_with_score_insert(prev, c, v);
        lemma_with_score_push(insert_by_score(prev, c), last, v);
        lemma_with_score_push(prev, last, v);
        assert(prev.push(last) =~= sorted);
        let tc: Seq<CandidateView> = if c.score == v { seq![c] } else { Seq::empty() };
        let tl: Seq<CandidateView> = if last.score == v { seq![last] } else { Seq::empty() };
        if c.score == v {
            assert(tl =~= Seq::<CandidateView>::empty());
            assert(with_score(prev, v) + tc + tl =~= with_score(prev, v) + tl + tc);
        } else {
            assert(tc =~= Seq::<CandidateView>::empty());
            assert(with_score(prev, v) + tc + tl =~= with_score(prev, v) + tl + tc);
        }
    }
}

/// Sorting by score keeps the order within each score.
proof fn lemma_with_score_sort(s: Seq<CandidateView>, v: nat)
    ensures
        with_score(sort_by_score(s), v) == with_score(s, v),
    decreases s.len(),
{
    if s.len() > 0 {
        let prev = s.drop_last();
        lemma_with_score_sort(prev, v);
        lemma_with_score_insert(sort_by_score(prev), s.last(), v);
        lemma_with_score_push(prev, s.last(), v);
        assert(prev.push(s.last()) =~= s);
    }
}

/// A subsequence stays one when a candidate is put in front of the longer
/// list.
proof fn lemma_subsequence_prepend(a: Seq<CandidateView>, b: Seq<CandidateView>, c: CandidateView)
    requires
        is_subsequence(a, b),
    ensures
        is_subsequence(a, seq![c] + b),
    decreases b.len(), 1int,
{
    let cb = seq![c] + b;
    assert(cb.drop_first() =~= b);
    if a.len() > 0 && a[0] == c {
        lemma_subsequence_drop_first(a, b);
    }
}

/// Leaving out the first candidate of a subsequence keeps it one.
proof fn lemma_subsequence_drop_first(a: Seq<CandidateView>, b: Seq<CandidateView>)
    requires
        is_subsequence(a, b),
        a.len() > 0,
    ensures
        is_subsequence(a.drop_first(), b),
    decreases b.len(), 0int,
{
    if a[0] == b[0] {
        lemma_subsequence_prepend(a.drop_first(), b.drop_first(), b[0]);
        assert(seq![b[0]] + b.drop_first() =~= b);
    } else {
        lemma_subsequence_drop_first(a, b.drop_first());
        lemma_subsequence_prepend(a.drop_first(), b.drop_first(), b[0]);
        assert(seq![b[0]] + b.drop_first() =~= b);
    }
}

/// What fitting keeps with a given score is a subsequence of what it was
/// offered with that score.
proof fn lemma_fit_subsequence(sorted: Seq<CandidateView>, used: nat, budget: nat, v: nat)
    ensures
        is_subsequence(with_score(fit_in_order(sorted, used, budget).0, v), with_score(sorted, v)),
    decreases sorted.len(),
{
    if sorted.len() == 0 {
        assert(with_score(fit_in_order(sorted, used, budget).0, v).len() == 0);
    } else {
        let c = sorted[0];
        let tail = sorted.drop_first();
        let next = if used + c.estimated_tokens <= budget { used + c.estimated_tokens } else { used };
        lemma_fit_subsequence(tail, next, budget, v);
        let rest = fit_in_order(tail, next, budget);
        let a = with_score(rest.0, v);
        let b = with_score(tail, v);
        let head: Seq<CandidateView> = if c.score == v { seq![c] } else { Seq::empty() };
        assert(with_score(sorted, v) == head + b);
        if used + c.estimated_tokens <= budget {
            let kept = seq![c] + rest.0;
            assert(kept[0] == c);
            assert(kept.drop_first() =~= rest.0);
            assert(with_score(kept, v) == head + a);
            if c.score == v {
                let x = seq![c] + a;
                let y = seq![c] + b;
                assert(x.drop_first() =~= a);
                assert(y.drop_first() =~= b);
                assert(x[0] == y[0]);
            } else {
                assert(head + a =~= a);
                assert(head + b =~= b);
            }
        } else {
            if c.score == v {
                lemma_subsequence_prepend(a, b, c);
            } else {
                assert(head + b =~= b);
            }
        }
    }
}

/// Filtering by requiredness keeps only candidates with that flag.
proof fn lemma_with_required_flags(s: Seq<CandidateView>, flag: bool)
    ensures
        forall|i: int| 0 <= i < with_required(s, flag).len() ==> (#[trigger] with_required(s, flag)[i]).required == flag,
    decreases s.len(),
{
    if s.len() > 0 {
        lemma_with_required_flags(s.drop_last(), flag);
    }
}

/// Whether the candidates are in non-increasing score order and all
/// discardable.
pub open spec fn ranked_discardable(s: Seq<CandidateView>) -> bool {
    &&& forall|i: int, j: int| 0 <= i < j < s.len() ==> (#[trigger] s[i]).score >= (#[trigger] s[j]).score
    &&& forall|i: int| 0 <= i < s.len() ==> !(#[trigger] s[i]).required
}

/// Inserting by score into a ranked list keeps it ranked.
proof fn lemma_insert_sorted(sorted: Seq<CandidateView>, c: CandidateView)
    requires
        ranked_discardable(sorted),
        !c.required,
    ensures
        ranked_discardable(insert_by_score(sorted, c)),
    decreases sorted.len(),
{
    if sorted.len() > 0 && sorted.last().score < c.score {
        let prev = sorted.drop_last();
        lemma_insert_sorted(prev, c);
        lemma_insert_members(prev, c);
        let inner = insert_by_score(prev, c);
        let out = inner.push(sorted.last());
        assert forall|i: int, j: int| 0 <= i < j < out.len() implies (#[trigger] out[i]).score >= (#[trigger] out[j]).score by {
            if j == out.len() - 1 {
                assert(out[i] == inner[i]);
                assert(inner.contains(inner[i]));
                if inner[i] != c {
                    let k = choose|k: int| 0 <= k < prev.len() && prev[k] == inner[i];
                    assert(sorted[k] == prev[k]);
                }
            } else {
                assert(out[i] == inner[i]);
                assert(out[j] == inner[j]);
            }
        }
        assert forall|i: int| 0 <= i < out.len() implies !(#[trigger] out[i]).required by {
            if i < inner.len() {
                assert(out[i] == inner[i]);
            }
        }
    } else if sorted.len() > 0 {
        let out = sorted.push(c);
        assert forall|i: int, j: int| 0 <= i < j < out.len() implies (#[trigger] out[i]).score >= (#[trigger] out[j]).score by {
            if j == out.len() - 1 {
                assert(sorted[i].score >= sorted.last().score);
            }
        }
    }
}

/// Sorting discardable candidates by score ranks them.
proof fn lemma_sort_sorted(s: Seq<CandidateView>)
    requires
        forall|i: int| 0 <= i < s.len() ==> !(#[trigger] s[i]).required,
    ensures
        ranked_discardable(sort_by_score(s)),
    decreases s.len(),
{
    if s.len() > 0 {
        let prev = s.drop_last();
        assert forall|i: int| 0 <= i < prev.len() implies !(#[trigger] prev[i]).required by {
            assert(prev[i] == s[i]);
        }
        lemma_sort_sorted(prev);
        lemma_insert_sorted(sort_by_score(prev), s.last());
    }
}

/// What fitting keeps of a ranked list stays ranked.
proof fn lemma_fit_sorted(sorted: Seq<CandidateView>, used: nat, budget: nat)
    requires
        ranked_discardable(sorted),
    ensures
        ranked_discardable(fit_in_order(sorted, used, budget).0),
        forall|k: int| 0 <= k < fit_in_order(sorted, used, budget).0.len() && sorted.len() > 0
            ==> (#[trigger] fit_in_order(sorted, used, budget).0[k]).score <= sorted[0].score,
    decreases sorted.len(),
{
    if sorted.len() > 0 {
        let c = sorted[0];
        let tail = sorted.drop_first();
        let next = if used + c.estimated_tokens <= budget { used + c.estimated_tokens } else { used };
        assert forall|i: int, j: int| 0 <= i < j < tail.len() implies (#[trigger] tail[i]).score >= (#[trigger] tail[j]).score by {
            assert(tail[i] == sorted[i + 1]);
            assert(tail[j] == sorted[j + 1]);
        }
        assert forall|i: int| 0 <= i < tail.len() implies !(#[trigger] tail[i]).required by {
            assert(tail[i] == sorted[i + 1]);
        }
        lemma_fit_sorted(tail, next, budget);
        let rest = fit_in_order(tail, next, budget);
        assert forall|k: int| 0 <= k < rest.0.len() implies (#[trigger] rest.0[k]).score <= c.score by {
            if tail.len() > 0 {
                assert(tail[0] == sorted[1]);
            }
        }
        if used + c.estimated_tokens <= budget {
            let out = seq![c] + rest.0;
            assert forall|i: int, j: int| 0 <= i < j < out.len() implies (#[trigger] out[i]).score >= (#[trigger] out[j]).score by {
                assert(out[j] == rest.0[j - 1]);
                if i > 0 {
                    assert(out[i] == rest.0[i - 1]);
                }
            }
            assert forall|i: int| 0 <= i < out.len() implies !(#[trigger] out[i]).required by {
                if i > 0 {
                    assert(out[i] == rest.0[i - 1]);
                }
            }
        }
    }
}

/// The required and the discardable candidates together are the candidates.
proof fn lemma_split_multiset(s: Seq<CandidateView>)
    ensures
        with_required(s, true).to_multiset().add(with_required(s, false).to_multiset()) == s.to_multiset(),
    decreases s.len(),
{
    broadcast use vstd::seq_lib::group_to_multiset_ensures, vstd::multiset::group_multiset_axioms;
    if s.len() > 0 {
        let prev = s.drop_last();
        lemma_split_multiset(prev);
        assert(s == prev.push(s.last()));
        assert(with_required(s, true).to_multiset().add(with_required(s, false).to_multiset())
            =~= prev.to_multiset().insert(s.last()));
    } else {
        assert(s.to_multiset() =~= vstd::multiset::Multiset::empty());
    }
}

/// Inserting by score adds the candidate to what the list holds.
proof fn lemma_insert_multiset(sorted: Seq<CandidateView>, c: CandidateView)
    ensures
        insert_by_score(sorted, c).to_multiset() == sorted.to_multiset().insert(c),
    decreases sorted.len(),
{
    broadcast use vstd::seq_lib::group_to_multiset_ensures, vstd::multiset::group_multiset_axioms;
    if sorted.len() > 0 && sorted.last().score < c.score {
        let prev = sorted.drop_last();
        lemma_insert_multiset(prev, c);
        assert(sorted == prev.push(sorted.last()));
        assert(insert_by_score(sorted, c).to_multiset() =~= sorted.to_multiset().insert(c));
    }
}

/// Sorting by score rearranges the candidates.
proof fn lemma_sort_multiset(s: Seq<CandidateView>)
    ensures
        sort_by_score(s).to_multiset() == s.to_multiset(),
    decreases s.len(),
{
    broadcast use vstd::seq_lib::group_to_multiset_ensures, vstd::multiset::group_multiset_axioms;
    if s.len() > 0 {
        let prev = s.drop_last();
        lemma_sort_multiset(prev);
        lemma_insert_multiset(sort_by_score(prev), s.last());
        assert(s == prev.push(s.last()));
    } else {
        assert(s.to_multiset() =~= vstd::multiset::Multiset::empty());
        assert(sort_by_score(s).to_multiset() =~= vstd::multiset::Multiset::empty());
    }
}

/// Fitting splits the candidates into the included and the excluded ones.
proof fn lemma_fit_multiset(sorted: Seq<CandidateView>, used: nat, budget: nat)
    ensures
        fit_in_order(sorted, used, budget).0.to_multiset().add(fit_in_order(sorted, used, budget).1.to_multiset())
            == sorted.to_multiset(),
    decreases sorted.len(),
{
    broadcast use vstd::seq_lib::group_to_multiset_ensures, vstd::multiset::group_multiset_axioms;
    if sorted.len() > 0 {
        let c = sorted[0];
        let tail = sorted.drop_first();
        let next = if used + c.estimated_tokens <= budget { used + c.estimated_tokens } else { used };
        lemma_fit_multiset(tail, next, budget);
        let rest = fit_in_order(tail, next, budget);
        assert(sorted == seq![c] + tail);
        vstd::seq_lib::lemma_multiset_commutative(seq![c], tail);
        vstd::seq_lib::lemma_multiset_commutative(seq![c], rest.0);
        vstd::seq_lib::lemma_multiset_commutative(seq![c], rest.1);
        assert(fit_in_order(sorted, used, budget).0.to_multiset().add(fit_in_order(sorted, used, budget).1.to_multiset())
            =~= sorted.to_multiset());
    } else {
        assert(sorted.to_multiset() =~= vstd::multiset::Multiset::empty());
        let e = Seq::<CandidateView>::empty();
        assert(e.to_multiset() =~= vstd::multiset::Multiset::empty());
    }
}

/// Each excluded candidate would overflow the budget on top of what was
/// used before plus everything included.
proof fn lemma_fit_excluded(sorted: Seq<CandidateView>, used: nat, budget: nat)
    ensures
        forall|k: int| 0 <= k < fit_in_order(sorted, used, budget).1.len()
            ==> used + total_tokens(fit_in_order(sorted, used, budget).0)
                + (#[trigger] fit_in_order(sorted, used, budget).1[k]).estimated_tokens > budget,
    decreases sorted.len(),
{
    if sorted.len() > 0 {
        let c = sorted[0];
        let tail = sorted.drop_first();
        let next = if used + c.estimated_tokens <= budget { used + c.estimated_tokens } else { used };
        lemma_fit_excluded(tail, next, budget);
        let rest = fit_in_order(tail, next, budget);
        let out = fit_in_order(sorted, used, budget);
        if used + c.estimated_tokens <= budget {
            lemma_total_concat(seq![c], rest.0);
            assert(total_tokens(seq![c]) == c.estimated_tokens) by {
                assert(seq![c].drop_last() =~= Seq::<CandidateView>::empty());
                assert(total_tokens(seq![c].drop_last()) == 0);
            }
            assert(out.1 == rest.1);
        } else {
            assert(out.0 == rest.0);
            assert forall|k: int| 0 <= k < out.1.len()
                implies used + total_tokens(out.0) + (#[trigger] out.1[k]).estimated_tokens > budget by {
                if k > 0 {
                    assert(out.1[k] == rest.1[k - 1]);
                }
            }
        }
    }
}

/// Only required candidates set the token floor: adding a discardable
/// candidate anywhere, or removing one, leaves the required total unchanged.
pub proof fn discardable_candidates_leave_required_tokens_unchanged(s: Seq<CandidateView>, k: int, c: CandidateView)
    requires
        0 <= k <= s.len(),
        !c.required,
    ensures
        required_total(s.insert(k, c)) == required_total(s),
        k < s.len() && !s[k].required ==> required_total(s.remove(k)) == required_total(s),
{
    lemma_insert_discardable(s, k, c);
    if k < s.len() && !s[k].required {
        lemma_insert_discardable(s.remove(k), k, s[k]);
        assert(s.remove(k).insert(k, s[k]) =~= s);
    }
}

/// Inserting a discardable candidate leaves the required total unchanged.
proof fn lemma_insert_discardable(s: Seq<CandidateView>, k: int, c: CandidateView)
    requires
        0 <= k <= s.len(),
        !c.required,
    ensures
        required_total(s.insert(k, c)) == required_total(s),
    decreases s.len(),
{
    let t = s.insert(k, c);
    if k == s.len() {
        assert(t.drop_last() =~= s);
    } else {
        lemma_insert_discardable(s.drop_last(), k, c);
        assert(t.drop_last() =~= s.drop_last().insert(k, c));
        assert(t.last() == s.last());
    }
}

/// Filtering by requiredness splits the candidates in two.
proof fn lemma_split_by_required(s: Seq<CandidateView>)
    ensures
        with_required(s, true).len() + with_required(s, false).len() == s.len(),
    decreases s.len(),
{
    if s.len() > 0 {
        lemma_split_by_required(s.drop_last());
    }
}

/// De-duplication leaves at most one candidate per key.
pub proof fn dedupe_leaves_one_candidate_per_key(s: Seq<CandidateView>)
    ensures
        forall|i: int, j: int| 0 <= i < j < spec_dedupe(s).len()
            ==> spec_dedupe_key(#[trigger] spec_dedupe(s)[i]) != spec_dedupe_key(#[trigger] spec_dedupe(s)[j]),
    decreases s.len(),
{
    if s.len() > 0 {
        let prev = s.drop_last();
        dedupe_leaves_one_candidate_per_key(prev);
        let kept = spec_dedupe(prev);
        let c = s.last();
        lemma_first_with_key_in_range(kept, spec_dedupe_key(c));
        let out = spec_dedupe(s);
        match first_with_key(kept, spec_dedupe_key(c)) {
            Some(k) => {
                assert forall|i: int, j: int| 0 <= i < j < out.len()
                    implies spec_dedupe_key(#[trigger] out[i]) != spec_dedupe_key(#[trigger] out[j]) by {
                    assert(spec_dedupe_key(out[i]) == spec_dedupe_key(kept[i]));
                    assert(spec_dedupe_key(out[j]) == spec_dedupe_key(kept[j]));
                }
            },
            None => {
                assert forall|i: int, j: int| 0 <= i < j < out.len()
                    implies spec_dedupe_key(#[trigger] out[i]) != spec_dedupe_key(#[trigger] out[j]) by {
                    assert(out[i] == kept[i]);
                    if j < kept.len() {
                        assert(out[j] == kept[j]);
                    } else {
                        assert(out[j] == c);
                    }
                }
            },
        }
    }
}

/// Whether a built candidate carries the marks its kind calls for: its size
/// is the estimate of its content; it is restricted from remote providers
/// exactly when it has a path the privacy policy restricts; only files and
/// messages carry paths; messages, memory and the diff are discardable and
/// instructions required; and its score is its kind's tier: a file scores
/// `SCORE_FILE`, raised by `PATH_AFFINITY_BONUS` exactly when its path is in
/// focus, and it is required exactly when its attached file was flagged
/// required or its path is in focus; an instruction `SCORE_FILE`, a
/// skill `SCORE_FILE` when invoked (required) and `SCORE_AVAILABLE_SKILL`
/// otherwise, the diff `SCORE_DIFF`, a message between `SCORE_MESSAGE` and
/// `SCORE_MESSAGE + 999`, and a memory fact `SCORE_MEMORY`.
pub open spec fn is_marked(c: CandidateView, route: RouteMatch, workspace: Workspace, privacy: PrivacyPolicy, files: Seq<ContextFile>) -> bool {
    &&& c.estimated_tokens == token_estimate(c.content.len())
    &&& c.restricted_for_remote == (c.path matches Some(p) && spec_restricted_for_remote(privacy, p))
    &&& (c.kind is Memory || c.kind is Instruction || c.kind is Skill || c.kind is Diff) ==> c.path is None
    &&& (c.kind is Message || c.kind is Memory || c.kind is Diff) ==> !c.required
    &&& c.kind is Instruction ==> c.required && c.score == SCORE_FILE
    &&& c.kind is File ==> (c.path matches Some(p) && {
        let focused = spec_path_in_focus(route, workspace, p);
        &&& c.score == SCORE_FILE + if focused { PATH_AFFINITY_BONUS as nat } else { 0 }
        &&& focused ==> c.required
        &&& exists|k: int| 0 <= k < files.len() && (#[trigger] files[k]).path@ == p
            && c.required == (files[k].required || focused)
    })
    &&& c.kind is Skill ==> c.score == if c.required { SCORE_FILE as nat } else { SCORE_AVAILABLE_SKILL as nat }
    &&& c.kind is Diff ==> c.score == SCORE_DIFF
    &&& c.kind is Message ==> SCORE_MESSAGE <= c.score <= SCORE_MESSAGE + 999
    &&& c.kind is Memory ==> c.score == SCORE_MEMORY
}

/// Every candidate `build_candidates` yields carries the marks its kind calls
/// for: de-duplication only keeps candidates that were built, and each built
/// candidate is marked.
pub proof fn built_candidates_are_marked(
    route: RouteMatch,
    recalled: RecalledContext,
    attachments: Attachments,
    workspace: Workspace,
    privacy: PrivacyPolicy,
)
    ensures
        forall|i: int| 0 <= i < spec_dedupe(raw_candidates(route, recalled, attachments, workspace, privacy)).len()
            ==> is_marked(#[trigger] spec_dedupe(raw_candidates(route, recalled, attachments, workspace, privacy))[i], route, workspace, privacy, attachments.files@),
{
    let raw = raw_candidates(route, recalled, attachments, workspace, privacy);
    lemma_raw_candidates_marked(route, recalled, attachments, workspace, privacy);
    lemma_dedupe_members(raw);
    let out = spec_dedupe(raw);
    assert forall|i: int| 0 <= i < out.len() implies is_marked(#[trigger] out[i], route, workspace, privacy, attachments.files@) by {
        assert(raw.contains(out[i]));
        let j = choose|j: int| 0 <= j < raw.len() && raw[j] == out[i];
        assert(is_marked(raw[j], route, workspace, privacy, attachments.files@));
    }
}

/// Each candidate built from the turn's material is marked.
proof fn lemma_raw_candidates_marked(
    route: RouteMatch,
    recalled: RecalledContext,
    attachments: Attachments,
    workspace: Workspace,
    privacy: PrivacyPolicy,
)
    ensures
        forall|j: int| 0 <= j < raw_candidates(route, recalled, attachments, workspace, privacy).len()
            ==> is_marked(#[trigger] raw_candidates(route, recalled, attachments, workspace, privacy)[j], route, workspace, privacy, attachments.files@),
{
    let messages = recalled.messages@;
    let memory = recalled.user_memory@ + recalled.context_memory@;
    let a = Seq::new(messages.len(), |i: int| message_view(route, workspace, privacy, messages[i], i as nat, messages.len()));
    let b = memory.map_values(|fact: MemoryFact| memory_view(fact));
    let c = attachments.files@.map_values(|file: ContextFile| file_view(route, workspace, privacy, file));
    let d = attachments.instructions@.map_values(|instruction: ContextInstruction| instruction_view(instruction));
    let e = attachments.invoked_skills@.map_values(|skill: Skill| skill_view(skill, true));
    let f = attachments.available_skills@.map_values(|skill: Skill| skill_view(skill, false));
    let g: Seq<CandidateView> = match workspace.git_diff {
        Some(diff) => seq![diff_view(diff@)],
        None => Seq::empty(),
    };
    assert forall|k: int| 0 <= k < a.len() implies is_marked(#[trigger] a[k], route, workspace, privacy, attachments.files@) by {
        recency_bonus_is_bounded_and_monotone(k as nat, k as nat, messages.len());
    }
    let ab = a + b;
    lemma_marked_concat(a, b, route, workspace, privacy, attachments.files@);
    lemma_marked_concat(ab, c, route, workspace, privacy, attachments.files@);
    lemma_marked_concat(ab + c, d, route, workspace, privacy, attachments.files@);
    lemma_marked_concat(ab + c + d, e, route, workspace, privacy, attachments.files@);
    lemma_marked_concat(ab + c + d + e, f, route, workspace, privacy, attachments.files@);
    lemma_marked_concat(ab + c + d + e + f, g, route, workspace, privacy, attachments.files@);
    assert(raw_candidates(route, recalled, attachments, workspace, privacy) == ab + c + d + e + f + g);
}

/// Marked candidates stay marked when two lists are joined.
proof fn lemma_marked_concat(a: Seq<CandidateView>, b: Seq<CandidateView>, route: RouteMatch, workspace: Workspace, privacy: PrivacyPolicy, files: Seq<ContextFile>)
    requires
        forall|k: int| 0 <= k < a.len() ==> is_marked(#[trigger] a[k], route, workspace, privacy, files),
        forall|k: int| 0 <= k < b.len() ==> is_marked(#[trigger] b[k], route, workspace, privacy, files),
    ensures
        forall|k: int| 0 <= k < (a + b).len() ==> is_marked(#[trigger] (a + b)[k], route, workspace, privacy, files),
{
    assert forall|k: int| 0 <= k < (a + b).len() implies is_marked(#[trigger] (a + b)[k], route, workspace, privacy, files) by {
        if k < a.len() {
            assert((a + b)[k] == a[k]);
        } else {
            assert((a + b)[k] == b[k - a.len()]);
        }
    }
}

/// Whether some candidate of `kept` has the key `key`.
pub open spec fn holds_key(kept: Seq<CandidateView>, key: Seq<char>) -> bool {
    exists|i: int| 0 <= i < kept.len() && spec_dedupe_key(#[trigger] kept[i]) == key
}

/// De-duplication keeps, for every key among the candidates, exactly one
/// candidate with that key, drawn from the candidates, and the one it keeps
/// is the best copy: no candidate with the same key supersedes it (a
/// required copy wins over a discardable one, then the higher score).
pub proof fn dedupe_keeps_the_best_copy_of_every_key(s: Seq<CandidateView>)
    ensures
        forall|i: int, j: int| 0 <= i < j < spec_dedupe(s).len()
            ==> spec_dedupe_key(#[trigger] spec_dedupe(s)[i]) != spec_dedupe_key(#[trigger] spec_dedupe(s)[j]),
        forall|i: int| 0 <= i < spec_dedupe(s).len() ==> s.contains(#[trigger] spec_dedupe(s)[i]),
        forall|j: int| 0 <= j < s.len() ==> holds_key(spec_dedupe(s), spec_dedupe_key(#[trigger] s[j])),
        forall|i: int, j: int| 0 <= i < spec_dedupe(s).len() && 0 <= j < s.len()
            && spec_dedupe_key(#[trigger] s[j]) == spec_dedupe_key(#[trigger] spec_dedupe(s)[i])
            ==> !spec_supersedes(s[j], spec_dedupe(s)[i]),
{
    assert(forall|i: int, j: int| 0 <= i < j < spec_dedupe(s).len()
            ==> spec_dedupe_key(#[trigger] spec_dedupe(s)[i]) != spec_dedupe_key(#[trigger] spec_dedupe(s)[j])) by {
        dedupe_leaves_one_candidate_per_key(s);
    }
    assert(forall|i: int| 0 <= i < spec_dedupe(s).len() ==> s.contains(#[trigger] spec_dedupe(s)[i])) by {
        lemma_dedupe_members(s);
    }
    assert(forall|j: int| 0 <= j < s.len() ==> holds_key(spec_dedupe(s), spec_dedupe_key(#[trigger] s[j]))) by {
        lemma_dedupe_covers_keys(s);
    }
    assert(forall|i: int, j: int| 0 <= i < spec_dedupe(s).len() && 0 <= j < s.len()
            && spec_dedupe_key(#[trigger] s[j]) == spec_dedupe_key(#[trigger] spec_dedupe(s)[i])
            ==> !spec_supersedes(s[j], spec_dedupe(s)[i])) by {
        lemma_dedupe_keeps_best(s);
    }
}

/// Every candidate de-duplication keeps is one of the candidates.
proof fn lemma_dedupe_members(s: Seq<CandidateView>)
    ensures
        forall|i: int| 0 <= i < spec_dedupe(s).len() ==> s.contains(#[trigger] spec_dedupe(s)[i]),
    decreases s.len(),
{
    if s.len() > 0 {
        let prev = s.drop_last();
        lemma_dedupe_members(prev);
        let kept = spec_dedupe(prev);
        let c = s.last();
        let out = spec_dedupe(s);
        lemma_first_with_key_in_range(kept, spec_dedupe_key(c));
        assert forall|i: int| 0 <= i < out.len() implies s.contains(#[trigger] out[i]) by {
            if out[i] == c {
                assert(s[s.len() - 1] == c);
            } else {
                match first_with_key(kept, spec_dedupe_key(c)) {
                    Some(k) => {
                        if spec_supersedes(c, kept[k]) {
                            assert(out == kept.update(k, c));
                        }
                    },
                    None => {
                        assert(out == kept.push(c));
                    },
                }
                assert(i < kept.len());
                assert(out[i] == kept[i]);
                assert(prev.contains(kept[i]));
                let j = choose|j: int| 0 <= j < prev.len() && prev[j] == kept[i];
                assert(s[j] == kept[i]);
            }
        }
    }
}

/// Every key among the candidates is the key of a candidate de-duplication
/// keeps.
proof fn lemma_dedupe_covers_keys(s: Seq<CandidateView>)
    ensures
        forall|j: int| 0 <= j < s.len() ==> holds_key(spec_dedupe(s), spec_dedupe_key(#[trigger] s[j])),
    decreases s.len(),
{
    if s.len() > 0 {
        let prev = s.drop_last();
        lemma_dedupe_covers_keys(prev);
        let kept = spec_dedupe(prev);
        let c = s.last();
        let key = spec_dedupe_key(c);
        lemma_first_with_key_in_range(kept, key);
        let out = spec_dedupe(s);
        let kk = first_with_key(kept, key);
        assert(out.len() >= kept.len());
        assert forall|i: int| 0 <= i < kept.len() implies spec_dedupe_key(#[trigger] out[i]) == spec_dedupe_key(kept[i]) by {
            match kk {
                Some(k) => {
                    if spec_supersedes(c, kept[k]) {
                        assert(out == kept.update(k, c));
                    }
                },
                None => {
                    assert(out == kept.push(c));
                },
            }
        }
        assert forall|j: int| 0 <= j < s.len() implies holds_key(out, spec_dedupe_key(#[trigger] s[j])) by {
            if j == s.len() - 1 {
                match kk {
                    Some(k) => {
                        assert(spec_dedupe_key(out[k]) == key);
                    },
                    None => {
                        assert(out == kept.push(c));
                        assert(out[kept.len() as int] == c);
                    },
                }
            } else {
                assert(s[j] == prev[j]);
                assert(holds_key(kept, spec_dedupe_key(prev[j])));
                let i = choose|i: int| 0 <= i < kept.len() && spec_dedupe_key(#[trigger] kept[i]) == spec_dedupe_key(prev[j]);
                assert(spec_dedupe_key(out[i]) == spec_dedupe_key(kept[i]));
            }
        }
    }
}

/// No candidate supersedes the kept candidate with its key.
#[verifier::spinoff_prover]
proof fn lemma_dedupe_keeps_best(s: Seq<CandidateView>)
    ensures
        forall|i: int, j: int| 0 <= i < spec_dedupe(s).len() && 0 <= j < s.len()
            && spec_dedupe_key(#[trigger] s[j]) == spec_dedupe_key(#[trigger] spec_dedupe(s)[i])
            ==> !spec_supersedes(s[j], spec_dedupe(s)[i]),
    decreases s.len(),
{
    if s.len() > 0 {
        let prev = s.drop_last();
        lemma_dedupe_keeps_best(prev);
        lemma_dedupe_covers_keys(prev);
        dedupe_leaves_one_candidate_per_key(prev);
        let kept = spec_dedupe(prev);
        let c = s.last();
        let key = spec_dedupe_key(c);
        lemma_first_with_key_in_range(kept, key);
        let out = spec_dedupe(s);
        match first_with_key(kept, key) {
            Some(k) => {
                let replaced = spec_supersedes(c, kept[k]);
                assert(out == if replaced { kept.update(k, c) } else { kept });
                assert forall|i: int, j: int| 0 <= i < out.len() && 0 <= j < s.len()
                    && spec_dedupe_key(#[trigger] s[j]) == spec_dedupe_key(#[trigger] out[i])
                    implies !spec_supersedes(s[j], out[i]) by {
                    if i != k {
                        assert(out[i] == kept[i]);
                        if j == s.len() - 1 {
                            assert(spec_dedupe_key(kept[k]) == key);
                            if i > k {
                                assert(spec_dedupe_key(kept[k]) != spec_dedupe_key(kept[i]));
                            }
                        } else {
                            assert(s[j] == prev[j]);
                        }
                    } else if j < s.len() - 1 {
                        assert(s[j] == prev[j]);
                        assert(spec_dedupe_key(prev[j]) == spec_dedupe_key(kept[k]));
                        assert(!spec_supersedes(prev[j], kept[k]));
                    }
                }
            },
            None => {
                assert(out == kept.push(c));
                assert forall|i: int, j: int| 0 <= i < out.len() && 0 <= j < s.len()
                    && spec_dedupe_key(#[trigger] s[j]) == spec_dedupe_key(#[trigger] out[i])
                    implies !spec_supersedes(s[j], out[i]) by {
                    if i == kept.len() {
                        assert(out[i] == c);
                        if j < s.len() - 1 {
                            assert(s[j] == prev[j]);
                            assert(holds_key(kept, spec_dedupe_key(prev[j])));
                            let m = choose|m: int| 0 <= m < kept.len() && spec_dedupe_key(#[trigger] kept[m]) == spec_dedupe_key(prev[j]);
                            assert(spec_dedupe_key(kept[m]) == key);
                        }
                    } else {
                        assert(out[i] == kept[i]);
                        if j < s.len() - 1 {
                            assert(s[j] == prev[j]);
                        } else {
                            assert(spec_dedupe_key(kept[i]) != key);
                        }
                    }
                }
            },
        }
    }
}

/// A resolved turn never sends restricted context to a remote model, and its
/// context fits the chosen model: when the caller asked for local models
/// only, or any candidate of the finalized context is restricted from remote
/// providers, the chosen model is local.
pub proof fn resolved_turn_respects_privacy_and_window(turn: ResolvedTurn, args: ResolveArgs)
    requires
        is_resolution(Ok(turn), args),
    ensures
        args.local_only || spec_has_restricted(turn.context.included.deep_view()) ==> turn.model.local,
        total_tokens(turn.context.included.deep_view()) <= spec_budget(turn.model),
{
    let r = Ok::<ResolvedTurn, crate::resolver::ResolverError>(turn);
    let task = choose|task: NormalizedTask| {
        &&& #[trigger] is_normalized(task, *args.input, *args.workspace, args.attachments.invoked_skills@, *args.classification)
        &&& if args.input.explicit_model is None && !some_rule_matches(task, args.routing.rules@) && args.routing.default is None {
            r == Err::<ResolvedTurn, crate::resolver::ResolverError>(crate::resolver::ResolverError::Routing(crate::policy_matcher::PolicyMatchError::NoRoute))
        } else {
            exists|route: RouteMatch| #[trigger] is_route_for(route, task, *args.routing, args.input.explicit_model)
                && is_routed_resolution(r, args, task, route)
        }
    };
    let route = choose|route: RouteMatch| #[trigger] is_route_for(route, task, *args.routing, args.input.explicit_model)
        && is_routed_resolution(r, args, task, route);
    let built = crate::context::spec_dedupe(crate::context::raw_candidates(route, *args.recalled, *args.attachments, *args.workspace, *args.privacy));
    let restricted = turn_restricted(built, args.local_only);
    let requirements = turn_requirements(args.requirements, built);
    let selection = choose|selection: Result<ModelSelection, crate::model_selector::ModelSelectorError>| {
        &&& #[trigger] is_selection(selection, route, requirements, args.catalog@, args.credentialed@, restricted)
        &&& match selection {
            Err(e) => r == Err::<ResolvedTurn, crate::resolver::ResolverError>(crate::resolver::ResolverError::Model(e)),
            Ok(chosen) => if required_total(built) <= spec_budget(chosen.model) {
                &&& r matches Ok(turn)
                &&& turn.model == chosen.model
                &&& is_finalized(turn.context, built, chosen.model)
            } else {
                r matches Err(crate::resolver::ResolverError::Context(_))
            },
        }
    };
    let chosen = selection->Ok_0;
    finalized_context_fits_the_budget(turn.context, built, chosen.model);
    if args.local_only || spec_has_restricted(turn.context.included.deep_view()) {
        if spec_has_restricted(turn.context.included.deep_view()) {
            let i = choose|i: int| 0 <= i < turn.context.included.deep_view().len()
                && (#[trigger] turn.context.included.deep_view()[i]).restricted_for_remote;
            let x = turn.context.included.deep_view()[i];
            assert(turn.context.included.deep_view().contains(x));
            let j = choose|j: int| 0 <= j < built.len() && built[j] == x;
            assert(built[j].restricted_for_remote);
        }
        assert(restricted);
        restricted_selection_is_local(chosen, route, requirements, args.catalog@, args.credentialed@);
    }
}

/// A resolved plan serves the model it names: the routing decision names
/// the chosen model's provider and model, records an override exactly when
/// the request named a model, and the chosen model is a catalog entry. It
/// is the catalog's entry for a reference of the matched route's chain (the
/// primary model then its fallbacks; just the named model for an override),
/// the remaining fallbacks are the chain after it, every required candidate
/// built for the route is in the finalized context, and a turn limited to
/// local models gets a local one.
pub proof fn resolved_plan_serves_the_chosen_model(turn: ResolvedTurn, args: ResolveArgs)
    requires
        is_resolution(Ok(turn), args),
    ensures
        turn.routing.provider == turn.model.provider,
        turn.routing.model == turn.model.model,
        turn.routing.override_used == (args.input.explicit_model is Some),
        args.catalog@.contains(turn.model),
        args.local_only ==> turn.model.local,
        exists|route: RouteMatch| {
            &&& (args.input.explicit_model matches Some(m) ==> candidates(route) == seq![m])
            &&& exists|i: int| 0 <= i < candidates(route).len()
                && catalog_lookup(args.catalog@, #[trigger] candidates(route)[i]) == Some(turn.model)
            &&& turn.fallbacks@ == after_first(candidates(route), described(turn.model))
            &&& forall|k: int| 0 <= k < spec_dedupe(raw_candidates(route, *args.recalled, *args.attachments, *args.workspace, *args.privacy)).len()
                && (#[trigger] spec_dedupe(raw_candidates(route, *args.recalled, *args.attachments, *args.workspace, *args.privacy))[k]).required
                ==> turn.context.included.deep_view().contains(
                    spec_dedupe(raw_candidates(route, *args.recalled, *args.attachments, *args.workspace, *args.privacy))[k])
        },
{
    let r = Ok::<ResolvedTurn, crate::resolver::ResolverError>(turn);
    let task = choose|task: NormalizedTask| {
        &&& #[trigger] is_normalized(task, *args.input, *args.workspace, args.attachments.invoked_skills@, *args.classification)
        &&& if args.input.explicit_model is None && !some_rule_matches(task, args.routing.rules@) && args.routing.default is None {
            r == Err::<ResolvedTurn, crate::resolver::ResolverError>(crate::resolver::ResolverError::Routing(crate::policy_matcher::PolicyMatchError::NoRoute))
        } else {
            exists|route: RouteMatch| #[trigger] is_route_for(route, task, *args.routing, args.input.explicit_model)
                && is_routed_resolution(r, args, task, route)
        }
    };
    let route = choose|route: RouteMatch| #[trigger] is_route_for(route, task, *args.routing, args.input.explicit_model)
        && is_routed_resolution(r, args, task, route);
    let built = spec_dedupe(raw_candidates(route, *args.recalled, *args.attachments, *args.workspace, *args.privacy));
    let restricted = turn_restricted(built, args.local_only);
    let requirements = turn_requirements(args.requirements, built);
    let selection = choose|selection: Result<ModelSelection, crate::model_selector::ModelSelectorError>| {
        &&& #[trigger] is_selection(selection, route, requirements, args.catalog@, args.credentialed@, restricted)
        &&& match selection {
            Err(e) => r == Err::<ResolvedTurn, crate::resolver::ResolverError>(crate::resolver::ResolverError::Model(e)),
            Ok(chosen) => if required_total(built) <= spec_budget(chosen.model) {
                &&& r matches Ok(turn)
                &&& turn.classification == task.classification
                &&& turn.routing == spec_routing_decision(route, chosen)
                &&& turn.model == chosen.model
                &&& turn.fallbacks@ == after_first(candidates(route), described(chosen.model))
                &&& is_finalized(turn.context, built, chosen.model)
            } else {
                r matches Err(crate::resolver::ResolverError::Context(_))
            },
        }
    };
    let chosen = selection->Ok_0;
    assert(is_policy_route(route, task, *args.routing, match args.input.explicit_model { Some(m) => Some(&m), None => None }));
    if let Some(m) = args.input.explicit_model {
        assert(candidates(route) =~= seq![m]);
    }
    let i = choose|i: int| {
        &&& 0 <= i < candidates(route).len()
        &&& candidate_usable(route, i, args.catalog@, args.credentialed@, requirements, restricted)
        &&& (forall|j: int| 0 <= j < i ==> !#[trigger] candidate_usable(route, j, args.catalog@, args.credentialed@, requirements, restricted))
        &&& catalog_lookup(args.catalog@, candidates(route)[i]) == Some(chosen.model)
        &&& chosen.fallback_used == (i > 0)
    };
    let reference = candidates(route)[i];
    let w = choose|w: int| 0 <= w < args.catalog@.len() && descriptor_reference(#[trigger] args.catalog@[w]) == reference_id(reference);
    lemma_catalog_entry_exists(args.catalog@, reference, w + 1);
    let k = choose|k: int| is_catalog_entry(args.catalog@, reference, k);
    assert(args.catalog@[k] == turn.model);
    resolved_turn_respects_privacy_and_window(turn, args);
    finalize_keeps_every_required_candidate(turn.context, built, chosen.model);
}

/// A catalog that describes a reference among its first `n` entries has a
/// first entry for it.
proof fn lemma_catalog_entry_exists(catalog: Seq<ModelDescriptor>, reference: ModelReference, n: int)
    requires
        0 <= n <= catalog.len(),
        exists|i: int| 0 <= i < n && descriptor_reference(#[trigger] catalog[i]) == reference_id(reference),
    ensures
        exists|i: int| is_catalog_entry(catalog, reference, i),
    decreases n,
{
    if exists|i: int| 0 <= i < n - 1 && descriptor_reference(#[trigger] catalog[i]) == reference_id(reference) {
        lemma_catalog_entry_exists(catalog, reference, n - 1);
    } else {
        assert(is_catalog_entry(catalog, reference, n - 1));
    }
}

/// Whether two resolved plans agree on everything a client can see: the
/// classification, the routing decision, the chosen model, the remaining
/// fallbacks, the finalized context (what was included, the outcome and the
/// references) and the tool permissions. Reasons are compared as text.
pub open spec fn same_plan(a: ResolvedTurn, b: ResolvedTurn) -> bool {
    &&& a.classification.intent == b.classification.intent
    &&& a.classification.source == b.classification.source
    &&& a.classification.matched_rule == b.classification.matched_rule
    &&& a.classification.confidence == b.classification.confidence
    &&& a.classification.reason@ == b.classification.reason@
    &&& a.routing.intent == b.routing.intent
    &&& a.routing.provider == b.routing.provider
    &&& a.routing.model == b.routing.model
    &&& a.routing.matched_rule == b.routing.matched_rule
    &&& a.routing.fallback_used == b.routing.fallback_used
    &&& a.routing.override_used == b.routing.override_used
    &&& a.routing.reason@ == b.routing.reason@
    &&& a.model == b.model
    &&& a.fallbacks@ == b.fallbacks@
    &&& a.context.included.deep_view() == b.context.included.deep_view()
    &&& a.context.outcome.included.deep_view() == b.context.outcome.included.deep_view()
    &&& a.context.outcome.excluded.deep_view() == b.context.outcome.excluded.deep_view()
    &&& a.context.references.deep_view() == b.context.references.deep_view()
    &&& permissions_view(a.required_permissions) == permissions_view(b.required_permissions)
}

/// Whether the turn `args` describes finds no route for `task`.
pub open spec fn finds_no_route(args: ResolveArgs, task: NormalizedTask) -> bool {
    args.input.explicit_model is None && !some_rule_matches(task, args.routing.rules@) && args.routing.default is None
}

/// The candidates built for a turn served by `route`.
pub open spec fn built_for(args: ResolveArgs, route: RouteMatch) -> Seq<CandidateView> {
    spec_dedupe(raw_candidates(route, *args.recalled, *args.attachments, *args.workspace, *args.privacy))
}

/// Whether `r` is the outcome of serving `route` for `task` once model
/// selection gave `selection`.
pub open spec fn served_by(
    r: Result<ResolvedTurn, crate::resolver::ResolverError>,
    args: ResolveArgs,
    task: NormalizedTask,
    route: RouteMatch,
    selection: Result<ModelSelection, crate::model_selector::ModelSelectorError>,
) -> bool {
    let built = built_for(args, route);
    match selection {
        Err(e) => r == Err::<ResolvedTurn, crate::resolver::ResolverError>(crate::resolver::ResolverError::Model(e)),
        Ok(chosen) => if required_total(built) <= spec_budget(chosen.model) {
            &&& r matches Ok(turn)
            &&& turn.classification == task.classification
            &&& turn.routing == spec_routing_decision(route, chosen)
            &&& turn.model == chosen.model
            &&& turn.fallbacks@ == after_first(candidates(route), described(chosen.model))
            &&& permissions_view(turn.required_permissions) == route_permissions(route)
            &&& is_finalized(turn.context, built, chosen.model)
        } else {
            &&& r matches Err(crate::resolver::ResolverError::Context(ContextError::WindowExceeded { estimated, budget }))
            &&& estimated as nat == required_total(built)
            &&& budget as nat == spec_budget(chosen.model)
        },
    }
}

/// The task, and unless no route was found the route and the model
/// selection, that a resolution went through.
proof fn open_resolution(r: Result<ResolvedTurn, crate::resolver::ResolverError>, args: ResolveArgs)
    -> (out: (NormalizedTask, RouteMatch, Result<ModelSelection, crate::model_selector::ModelSelectorError>))
    requires
        is_resolution(r, args),
    ensures
        is_normalized(out.0, *args.input, *args.workspace, args.attachments.invoked_skills@, *args.classification),
        finds_no_route(args, out.0) ==> r == Err::<ResolvedTurn, crate::resolver::ResolverError>(
            crate::resolver::ResolverError::Routing(crate::policy_matcher::PolicyMatchError::NoRoute)),
        !finds_no_route(args, out.0) ==> {
            &&& is_route_for(out.1, out.0, *args.routing, args.input.explicit_model)
            &&& is_selection(out.2, out.1, turn_requirements(args.requirements, built_for(args, out.1)), args.catalog@,
                args.credentialed@, turn_restricted(built_for(args, out.1), args.local_only))
            &&& served_by(r, args, out.0, out.1, out.2)
        },
{
    let task = choose|task: NormalizedTask| {
        &&& #[trigger] is_normalized(task, *args.input, *args.workspace, args.attachments.invoked_skills@, *args.classification)
        &&& if args.input.explicit_model is None && !some_rule_matches(task, args.routing.rules@) && args.routing.default is None {
            r == Err::<ResolvedTurn, crate::resolver::ResolverError>(crate::resolver::ResolverError::Routing(crate::policy_matcher::PolicyMatchError::NoRoute))
        } else {
            exists|route: RouteMatch| #[trigger] is_route_for(route, task, *args.routing, args.input.explicit_model)
                && is_routed_resolution(r, args, task, route)
        }
    };
    if finds_no_route(args, task) {
        let route = arbitrary();
        let selection = arbitrary();
        (task, route, selection)
    } else {
        let route = choose|route: RouteMatch| #[trigger] is_route_for(route, task, *args.routing, args.input.explicit_model)
            && is_routed_resolution(r, args, task, route);
        let built = built_for(args, route);
        let restricted = turn_restricted(built, args.local_only);
        let requirements = turn_requirements(args.requirements, built);
        let selection = choose|selection: Result<ModelSelection, crate::model_selector::ModelSelectorError>| {
            &&& #[trigger] is_selection(selection, route, requirements, args.catalog@, args.credentialed@, restricted)
            &&& served_by(r, args, task, route, selection)
        };
        (task, route, selection)
    }
}

/// Routes from the same source serve the same candidates, chain and rule.
proof fn lemma_same_source(args: ResolveArgs, a: RouteMatch, b: RouteMatch)
    requires
        a.source == b.source,
    ensures
        built_for(args, a) == built_for(args, b),
        candidates(a) == candidates(b),
        route_rule(a) == route_rule(b),
        route_model(a) == route_model(b),
        route_is_override(a) == route_is_override(b),
        route_permissions(a) == route_permissions(b),
{
    let ra = raw_candidates(a, *args.recalled, *args.attachments, *args.workspace, *args.privacy);
    let rb = raw_candidates(b, *args.recalled, *args.attachments, *args.workspace, *args.privacy);
    assert(route_rule(a) == route_rule(b));
    assert forall|p: Seq<char>| spec_path_in_focus(a, *args.workspace, p) == spec_path_in_focus(b, *args.workspace, p) by {}
    assert(ra =~= rb);
}

/// Resolution is deterministic: resolving the same turn twice fails the same
/// way both times, or succeeds both times with the same plan.
pub proof fn resolution_is_deterministic(
    r1: Result<ResolvedTurn, crate::resolver::ResolverError>,
    r2: Result<ResolvedTurn, crate::resolver::ResolverError>,
    args: ResolveArgs,
)
    requires
        is_resolution(r1, args),
        is_resolution(r2, args),
    ensures
        r1 is Ok <==> r2 is Ok,
        r1 is Err ==> r1 == r2,
        r1 matches Ok(a) ==> r2 matches Ok(b) && same_plan(a, b),
{
    let (task1, route1, sel1) = open_resolution(r1, args);
    let (task2, route2, sel2) = open_resolution(r2, args);
    let tokens = spec_tokenize(args.input.text@);
    let kinds = spec_context_kinds(*args.workspace);
    classification_is_deterministic(task1.classification, task2.classification, args.input.command, tokens, kinds, *args.classification);
    assert(task1.skills@ == task2.skills@);
    assert(task1.touched_files.deep_view() == task2.touched_files.deep_view());
    assert(some_rule_matches(task1, args.routing.rules@) == some_rule_matches(task2, args.routing.rules@));
    if !finds_no_route(args, task1) {
        assert(is_route_for(route2, task1, *args.routing, args.input.explicit_model));
        routing_is_deterministic(route1, route2, task1, *args.routing, args.input.explicit_model);
        lemma_same_source(args, route1, route2);
        let built = built_for(args, route1);
        let requirements = turn_requirements(args.requirements, built);
        let restricted = turn_restricted(built, args.local_only);
        assert forall|j: int| candidate_usable(route1, j, args.catalog@, args.credentialed@, requirements, restricted)
            == candidate_usable(route2, j, args.catalog@, args.credentialed@, requirements, restricted) by {}
        assert(override_refused(route1, args.catalog@, restricted) == override_refused(route2, args.catalog@, restricted));
        assert(spec_local_required(route1, restricted) == spec_local_required(route2, restricted));
        assert(is_selection(sel2, route1, requirements, args.catalog@, args.credentialed@, restricted));
        lemma_selection_is_unique(sel1, sel2, route1, requirements, args.catalog@, args.credentialed@, restricted);
    }
}

/// Model selection has one outcome.
proof fn lemma_selection_is_unique(
    a: Result<ModelSelection, crate::model_selector::ModelSelectorError>,
    b: Result<ModelSelection, crate::model_selector::ModelSelectorError>,
    route: RouteMatch,
    requirements: RoutingRequirements,
    catalog: Seq<ModelDescriptor>,
    credentialed: Seq<Provider>,
    restricted: bool,
)
    requires
        is_selection(a, route, requirements, catalog, credentialed, restricted),
        is_selection(b, route, requirements, catalog, credentialed, restricted),
    ensures
        a == b,
{
    if !override_refused(route, catalog, restricted) {
        match (a, b) {
            (Ok(x), Ok(y)) => {
                let i = choose|i: int| {
                    &&& 0 <= i < candidates(route).len()
                    &&& candidate_usable(route, i, catalog, credentialed, requirements, restricted)
                    &&& (forall|j: int| 0 <= j < i ==> !#[trigger] candidate_usable(route, j, catalog, credentialed, requirements, restricted))
                    &&& catalog_lookup(catalog, candidates(route)[i]) == Some(x.model)
                    &&& x.fallback_used == (i > 0)
                };
                let k = choose|k: int| {
                    &&& 0 <= k < candidates(route).len()
                    &&& candidate_usable(route, k, catalog, credentialed, requirements, restricted)
                    &&& (forall|j: int| 0 <= j < k ==> !#[trigger] candidate_usable(route, j, catalog, credentialed, requirements, restricted))
                    &&& catalog_lookup(catalog, candidates(route)[k]) == Some(y.model)
                    &&& y.fallback_used == (k > 0)
                };
                assert(i == k);
            },
            (Ok(x), Err(_)) => {
                let i = choose|i: int| 0 <= i < candidates(route).len()
                    && candidate_usable(route, i, catalog, credentialed, requirements, restricted);
                assert(!candidate_usable(route, i, catalog, credentialed, requirements, restricted));
            },
            (Err(_), Ok(y)) => {
                let i = choose|i: int| 0 <= i < candidates(route).len()
                    && candidate_usable(route, i, catalog, credentialed, requirements, restricted);
                assert(!candidate_usable(route, i, catalog, credentialed, requirements, restricted));
            },
            (Err(_), Err(_)) => {},
        }
    }
}

/// Classification is deterministic: the same prompt, command, context and
/// configuration always give the same classification.
pub proof fn classification_is_deterministic(
    a: Classification,
    b: Classification,
    command: Option<TaskIntent>,
    tokens: Seq<Seq<char>>,
    contexts: Seq<Seq<char>>,
    config: ClassificationConfig,
)
    requires
        is_classification(a, command, tokens, contexts, config),
        is_classification(b, command, tokens, contexts, config),
    ensures
        a.intent == b.intent,
        a.source == b.source,
        a.matched_rule == b.matched_rule,
        a.confidence == b.confidence,
        a.reason@ == b.reason@,
{
    if command is None {
        match (a.matched_rule, b.matched_rule) {
            (Some(i), Some(j)) => {
                if i != j {
                    assert(is_winning_rule(config.rules@, tokens, contexts, i as int));
                    assert(is_winning_rule(config.rules@, tokens, contexts, j as int));
                }
            },
            (Some(i), None) => {
                assert(is_winning_rule(config.rules@, tokens, contexts, i as int));
            },
            (None, Some(j)) => {
                assert(is_winning_rule(config.rules@, tokens, contexts, j as int));
            },
            (None, None) => {},
        }
    }
}

/// Routing is deterministic: the same task, policy and override always give
/// the same route, for the same reason.
pub proof fn routing_is_deterministic(
    a: RouteMatch,
    b: RouteMatch,
    task: NormalizedTask,
    policy: RoutingPolicy,
    explicit: Option<ModelReference>,
)
    requires
        is_route_for(a, task, policy, explicit),
        is_route_for(b, task, policy, explicit),
    ensures
        a.intent == b.intent,
        a.source == b.source,
        a.reason@ == b.reason@,
{
    if explicit is None && some_rule_matches(task, policy.rules@) {
        let i = crate::policy_matcher::route_rule_index(a) as int;
        let j = crate::policy_matcher::route_rule_index(b) as int;
        assert(is_winning_route_rule(task, policy.rules@, i));
        assert(is_winning_route_rule(task, policy.rules@, j));
    }
}

/// A bearer header gives back exactly the token written after the scheme.
pub proof fn bearer_header_round_trip(r: Result<String, (crate::types::ApiErrorCode, &'static str)>, text: &str, token: Seq<char>)
    requires
        text@ == bearer_prefix() + token,
        is_bearer_outcome(r, AuthorizationHeader::Text(text)),
    ensures
        r matches Ok(t) && t@ == token,
{
    assert(text@.subrange(0, bearer_prefix().len() as int) =~= bearer_prefix());
    assert(starts_with(text@, bearer_prefix()));
    assert(text@.skip(bearer_prefix().len() as int) =~= token);
}

/// A provider credential header names back the provider it was written for:
/// a canonical provider by its name, and a valid OpenAI-compatible instance
/// name that is not a canonical one as that instance.
pub proof fn credential_header_round_trip(r: Option<Provider>, name: Seq<char>, provider: Provider)
    requires
        name == credential_prefix() + provider_name(provider) + credential_suffix(),
        provider_name(provider).len() > 0,
        provider matches Provider::OpenAICompatible(instance)
            ==> spec_is_instance_name(instance@) && canonical_provider(instance@) is None,
        is_header_provider(r, name),
    ensures
        provider matches Provider::OpenAICompatible(instance)
            ==> r matches Some(Provider::OpenAICompatible(found)) && found@ == instance@,
        !(provider is OpenAICompatible) ==> r == Some(provider),
{
    reveal_strlit("x-smista-provider-");
    reveal_strlit("-api-key");
    reveal_strlit("anthropic");
    reveal_strlit("gemini");
    reveal_strlit("openai");
    reveal_strlit("ollama");
    let p = credential_prefix();
    let s = credential_suffix();
    let segment = provider_name(provider);
    assert(name.subrange(0, p.len() as int) =~= p);
    assert(name.subrange(name.len() - s.len(), name.len() as int) =~= s);
    assert(name.subrange(p.len() as int, name.len() - s.len()) =~= segment);
    assert(starts_with(name, p));
    assert(header_segment(name) == Some(segment));
    match provider {
        Provider::Anthropic => {
            assert(segment == "anthropic"@);
            assert(canonical_provider(segment) == Some(Provider::Anthropic));
            assert(r == Some(provider));
        },
        Provider::Gemini => {
            assert(segment == "gemini"@);
            assert("gemini"@ != "anthropic"@);
            assert(canonical_provider(segment) == Some(Provider::Gemini));
            assert(r == Some(provider));
        },
        Provider::OpenAI => {
            assert(segment == "openai"@);
            assert("openai"@[0] != "gemini"@[0]);
            assert(canonical_provider(segment) == Some(Provider::OpenAI));
            assert(r == Some(provider));
        },
        Provider::Ollama => {
            assert(segment == "ollama"@);
            assert("ollama"@[1] != "openai"@[1]);
            assert("ollama"@ != "anthropic"@);
            assert("ollama"@ != "gemini"@);
            assert(canonical_provider(segment) == Some(Provider::Ollama));
            assert(r == Some(provider));
        },
        Provider::OpenAICompatible(instance) => {
            assert(starts_with(name, p));
            assert(header_segment(name) == Some(instance@));
        },
    }
}

/// The listing deadline is always positive and never above the maximum.
pub proof fn listing_deadline_is_bounded(header: Option<Seq<char>>)
    ensures
        1 <= spec_timeout_ms(header) <= MAX_FETCH_MODELS_TIMEOUT_MS,
{
}

/// Chunking never loses or reorders text: the chunks read back the text,
/// and two chunks differ in length by at most one character.
pub proof fn chunks_read_back_the_text(text: Seq<char>)
    ensures
        spec_chunk_in_two(text).len() <= 2,
        spec_chunk_in_two(text).len() == 0 <==> text.len() == 0,
        spec_chunk_in_two(text).len() == 1 ==> spec_chunk_in_two(text)[0] == text,
        spec_chunk_in_two(text).len() == 2 ==> {
            let chunks = spec_chunk_in_two(text);
            &&& chunks[0] + chunks[1] == text
            &&& chunks[0].len() <= chunks[1].len() <= chunks[0].len() + 1
        },
{
    if text.len() >= 2 {
        let mid = text.len() / 2;
        assert(text.subrange(0, mid as int) + text.subrange(mid as int, text.len() as int) =~= text);
    }
}

/// The summed request counts of per-model entries.
pub open spec fn model_request_sum(entries: Seq<ModelUsage>) -> nat
    decreases entries.len(),
{
    if entries.len() == 0 {
        0
    } else {
        model_request_sum(entries.drop_last()) + entries.last().request_count as nat
    }
}

/// The summed request counts of per-task-type entries.
pub open spec fn task_request_sum(entries: Seq<TaskTypeUsage>) -> nat
    decreases entries.len(),
{
    if entries.len() == 0 {
        0
    } else {
        task_request_sum(entries.drop_last()) + entries.last().request_count as nat
    }
}

/// The summed sizes of the model buckets of `firsts`.
pub open spec fn model_bucket_sizes(events: Seq<CostEvent>, firsts: Seq<CostEvent>) -> nat
    decreases firsts.len(),
{
    if firsts.len() == 0 {
        0
    } else {
        model_bucket_sizes(events, firsts.drop_last()) + model_costs(events, model_key(firsts.last())).len()
    }
}

/// The summed sizes of the task buckets of `kinds`.
pub open spec fn task_bucket_sizes(events: Seq<CostEvent>, kinds: Seq<crate::types::TaskIntent>) -> nat
    decreases kinds.len(),
{
    if kinds.len() == 0 {
        0
    } else {
        task_bucket_sizes(events, kinds.drop_last()) + task_costs(events, kinds.last()).len()
    }
}

/// A tally counts one request per event.
proof fn lemma_tally_counts_requests(costs: Seq<Option<CostPayload>>)
    requires
        tally_of(costs) is Some,
    ensures
        tally_of(costs)->Some_0.requests == costs.len(),
    decreases costs.len(),
{
    if costs.len() > 0 {
        lemma_tally_counts_requests(costs.drop_last());
    }
}

/// The first events of the model buckets name distinct models.
proof fn lemma_model_firsts_distinct(events: Seq<CostEvent>)
    ensures
        forall|a: int, b: int| 0 <= a < b < model_firsts(events).len()
            ==> model_key(#[trigger] model_firsts(events)[a]) != model_key(#[trigger] model_firsts(events)[b]),
    decreases events.len(),
{
    if events.len() > 0 {
        lemma_model_firsts_distinct(events.drop_last());
        let firsts = model_firsts(events.drop_last());
        if !holds_model(firsts, model_key(events.last())) {
            assert forall|a: int, b: int| 0 <= a < b < model_firsts(events).len()
                implies model_key(#[trigger] model_firsts(events)[a]) != model_key(#[trigger] model_firsts(events)[b]) by {
                assert(model_firsts(events)[a] == firsts.push(events.last())[a]);
                if b < firsts.len() {
                    assert(model_firsts(events)[b] == firsts[b]);
                } else {
                    assert(model_firsts(events)[b] == events.last());
                    assert(model_firsts(events)[a] == firsts[a]);
                }
            }
        }
    }
}

/// The task types listed are distinct.
proof fn lemma_task_types_distinct(events: Seq<CostEvent>)
    ensures
        forall|a: int, b: int| 0 <= a < b < task_types(events).len() ==> #[trigger] task_types(events)[a] != #[trigger] task_types(events)[b],
    decreases events.len(),
{
    if events.len() > 0 {
        lemma_task_types_distinct(events.drop_last());
        let kinds = task_types(events.drop_last());
        let kind = events.last().task_type;
        if !kinds.contains(kind) {
            assert forall|a: int, b: int| 0 <= a < b < task_types(events).len()
                implies #[trigger] task_types(events)[a] != #[trigger] task_types(events)[b] by {
                assert(task_types(events)[a] == kinds.push(kind)[a]);
                assert(task_types(events)[a] == kinds[a]);
                if b < kinds.len() {
                    assert(task_types(events)[b] == kinds[b]);
                } else {
                    assert(task_types(events)[b] == kind);
                }
            }
        }
    }
}

/// Adding an event grows exactly the bucket of its model by one.
proof fn lemma_model_sizes_step(prev: Seq<CostEvent>, e: CostEvent, firsts: Seq<CostEvent>)
    requires
        forall|a: int, b: int| 0 <= a < b < firsts.len() ==> model_key(#[trigger] firsts[a]) != model_key(#[trigger] firsts[b]),
    ensures
        model_bucket_sizes(prev.push(e), firsts) == model_bucket_sizes(prev, firsts) + (if holds_model(firsts, model_key(e)) { 1int } else { 0int }),
    decreases firsts.len(),
{
    let events = prev.push(e);
    assert(events.drop_last() =~= prev);
    if firsts.len() > 0 {
        let rest = firsts.drop_last();
        assert forall|a: int, b: int| 0 <= a < b < rest.len() implies model_key(#[trigger] rest[a]) != model_key(#[trigger] rest[b]) by {
            assert(rest[a] == firsts[a]);
            assert(rest[b] == firsts[b]);
        }
        lemma_model_sizes_step(prev, e, rest);
        if model_key(firsts.last()) == model_key(e) {
            assert(holds_model(firsts, model_key(e)));
            if holds_model(rest, model_key(e)) {
                let j = choose|j: int| 0 <= j < rest.len() && model_key(#[trigger] rest[j]) == model_key(e);
                assert(rest[j] == firsts[j]);
                assert(model_key(firsts[j]) != model_key(firsts[firsts.len() - 1]));
            }
        } else {
            if holds_model(firsts, model_key(e)) {
                let j = choose|j: int| 0 <= j < firsts.len() && model_key(#[trigger] firsts[j]) == model_key(e);
                assert(rest[j] == firsts[j]);
                assert(holds_model(rest, model_key(e)));
            }
            if holds_model(rest, model_key(e)) {
                let j = choose|j: int| 0 <= j < rest.len() && model_key(#[trigger] rest[j]) == model_key(e);
                assert(rest[j] == firsts[j]);
            }
        }
    }
}

/// Adding an event grows exactly the bucket of its task type by one.
proof fn lemma_task_sizes_step(prev: Seq<CostEvent>, e: CostEvent, kinds: Seq<crate::types::TaskIntent>)
    requires
        forall|a: int, b: int| 0 <= a < b < kinds.len() ==> #[trigger] kinds[a] != #[trigger] kinds[b],
    ensures
        task_bucket_sizes(prev.push(e), kinds) == task_bucket_sizes(prev, kinds) + (if kinds.contains(e.task_type) { 1int } else { 0int }),
    decreases kinds.len(),
{
    let events = prev.push(e);
    assert(events.drop_last() =~= prev);
    if kinds.len() > 0 {
        let rest = kinds.drop_last();
        assert forall|a: int, b: int| 0 <= a < b < rest.len() implies #[trigger] rest[a] != #[trigger] rest[b] by {
            assert(rest[a] == kinds[a]);
            assert(rest[b] == kinds[b]);
        }
        lemma_task_sizes_step(prev, e, rest);
        if kinds.last() == e.task_type {
            assert(kinds[kinds.len() - 1] == e.task_type);
            if rest.contains(e.task_type) {
                let j = choose|j: int| 0 <= j < rest.len() && rest[j] == e.task_type;
                assert(rest[j] == kinds[j]);
            }
        } else {
            if kinds.contains(e.task_type) {
                let j = choose|j: int| 0 <= j < kinds.len() && kinds[j] == e.task_type;
                assert(rest[j] == kinds[j]);
            }
            if rest.contains(e.task_type) {
                let j = choose|j: int| 0 <= j < rest.len() && rest[j] == e.task_type;
                assert(rest[j] == kinds[j]);
            }
        }
    }
}

/// The model buckets partition the events.
proof fn lemma_model_buckets_partition(events: Seq<CostEvent>)
    ensures
        model_bucket_sizes(events, model_firsts(events)) == events.len(),
    decreases events.len(),
{
    if events.len() > 0 {
        let prev = events.drop_last();
        let e = events.last();
        assert(prev.push(e) =~= events);
        lemma_model_buckets_partition(prev);
        let firsts = model_firsts(prev);
        lemma_model_firsts_distinct(prev);
        lemma_model_sizes_step(prev, e, firsts);
        if !holds_model(firsts, model_key(e)) {
            let grown = firsts.push(e);
            assert(grown.drop_last() =~= firsts);
            crate::usage::lemma_unseen_model(prev, model_key(e));
            assert(model_costs(events, model_key(e)) =~= seq![e.cost]);
        }
    }
}

/// The task buckets partition the events.
proof fn lemma_task_buckets_partition(events: Seq<CostEvent>)
    ensures
        task_bucket_sizes(events, task_types(events)) == events.len(),
    decreases events.len(),
{
    if events.len() > 0 {
        let prev = events.drop_last();
        let e = events.last();
        assert(prev.push(e) =~= events);
        lemma_task_buckets_partition(prev);
        let kinds = task_types(prev);
        lemma_task_types_distinct(prev);
        lemma_task_sizes_step(prev, e, kinds);
        if !kinds.contains(e.task_type) {
            let grown = kinds.push(e.task_type);
            assert(grown.drop_last() =~= kinds);
            crate::usage::lemma_unseen_task(prev, e.task_type);
            assert(task_costs(events, e.task_type) =~= seq![e.cost]);
        }
    }
}

/// The identity of the model a usage entry reports.
pub open spec fn usage_model_key(u: ModelUsage) -> ((int, Seq<char>), Seq<char>) {
    (crate::types::provider_id(u.provider), u.model@)
}

/// Whether some entry of `by_model` reports the model with identity `key`.
pub open spec fn lists_model(by_model: Seq<ModelUsage>, key: ((int, Seq<char>), Seq<char>)) -> bool {
    exists|i: int| 0 <= i < by_model.len() && usage_model_key(#[trigger] by_model[i]) == key
}

/// Whether some entry of `by_task_type` reports the task type `kind`.
pub open spec fn lists_task(by_task_type: Seq<TaskTypeUsage>, kind: TaskIntent) -> bool {
    exists|i: int| 0 <= i < by_task_type.len() && (#[trigger] by_task_type[i]).task_type == kind
}

/// Whether some event served a model with identity `key`.
pub open spec fn serves_model(events: Seq<CostEvent>, key: ((int, Seq<char>), Seq<char>)) -> bool {
    exists|k: int| 0 <= k < events.len() && model_key(#[trigger] events[k]) == key
}

/// Whether some event's cost payload is readable (not sealed).
pub open spec fn some_readable(costs: Seq<Option<CostPayload>>) -> bool {
    exists|k: int| 0 <= k < costs.len() && (#[trigger] costs[k]) is Some
}

/// The usage report lists each model and each task type once: the per-model
/// entries name pairwise distinct models, every event's model among them and
/// no other, and likewise the per-task-type entries. Tokens are reported
/// exactly when some event was readable (sealed events count as requests
/// only), and the currency is given exactly when a cost is.
pub proof fn usage_report_lists_each_key_once(r: crate::usage::SessionUsageResponse, events: Seq<CostEvent>)
    requires
        crate::usage::usage_fits(events),
        is_session_usage(r, events),
    ensures
        forall|i: int, j: int| 0 <= i < j < r.by_model.len()
            ==> usage_model_key(#[trigger] r.by_model[i]) != usage_model_key(#[trigger] r.by_model[j]),
        forall|k: int| 0 <= k < events.len() ==> lists_model(r.by_model@, model_key(#[trigger] events[k])),
        forall|i: int| 0 <= i < r.by_model.len() ==> serves_model(events, usage_model_key(#[trigger] r.by_model[i])),
        forall|i: int, j: int| 0 <= i < j < r.by_task_type.len()
            ==> (#[trigger] r.by_task_type[i]).task_type != (#[trigger] r.by_task_type[j]).task_type,
        forall|k: int| 0 <= k < events.len() ==> lists_task(r.by_task_type@, (#[trigger] events[k]).task_type),
        r.total.input_tokens is Some <==> some_readable(costs_of(events)),
        r.total.currency is Some <==> r.total.estimated_cost is Some,
{
    let firsts = model_firsts(events);
    let kinds = task_types(events);
    lemma_model_firsts_distinct(events);
    lemma_model_firsts_cover(events);
    lemma_model_firsts_seen(events);
    lemma_task_types_distinct(events);
    lemma_task_types_cover(events);
    lemma_tally_tokens(costs_of(events));
    assert forall|i: int| 0 <= i < r.by_model.len() implies usage_model_key(#[trigger] r.by_model[i]) == model_key(firsts[i]) by {
        assert(r.by_model@[i] == r.by_model[i]);
    }
    assert forall|i: int, j: int| 0 <= i < j < r.by_model.len()
        implies usage_model_key(#[trigger] r.by_model[i]) != usage_model_key(#[trigger] r.by_model[j]) by {
        assert(model_key(firsts[i]) != model_key(firsts[j]));
    }
    assert forall|k: int| 0 <= k < events.len() implies lists_model(r.by_model@, model_key(#[trigger] events[k])) by {
        assert(holds_model(firsts, model_key(events[k])));
        let w = choose|w: int| 0 <= w < firsts.len() && model_key(#[trigger] firsts[w]) == model_key(events[k]);
        assert(usage_model_key(r.by_model@[w]) == model_key(events[k]));
    }
    assert forall|i: int| 0 <= i < r.by_model.len() implies serves_model(events, usage_model_key(#[trigger] r.by_model[i])) by {
        let q = choose|q: int| 0 <= q < events.len() && #[trigger] events[q] == #[trigger] firsts[i];
        assert(model_key(events[q]) == usage_model_key(r.by_model[i]));
    }
    assert forall|k: int| 0 <= k < events.len() implies lists_task(r.by_task_type@, (#[trigger] events[k]).task_type) by {
        assert(kinds.contains(events[k].task_type));
        let w = choose|w: int| 0 <= w < kinds.len() && kinds[w] == events[k].task_type;
        assert(r.by_task_type@[w].task_type == events[k].task_type);
    }
}

/// Every event's model has a bucket.
proof fn lemma_model_firsts_cover(events: Seq<CostEvent>)
    ensures
        forall|k: int| 0 <= k < events.len() ==> holds_model(model_firsts(events), model_key(#[trigger] events[k])),
    decreases events.len(),
{
    if events.len() > 0 {
        let prev = events.drop_last();
        lemma_model_firsts_cover(prev);
        let firsts = model_firsts(prev);
        let out = model_firsts(events);
        assert forall|k: int| 0 <= k < events.len() implies holds_model(out, model_key(#[trigger] events[k])) by {
            if k < prev.len() {
                assert(events[k] == prev[k]);
                assert(holds_model(firsts, model_key(prev[k])));
                let w = choose|w: int| 0 <= w < firsts.len() && model_key(#[trigger] firsts[w]) == model_key(prev[k]);
                assert(model_key(out[w]) == model_key(prev[k]));
            } else if holds_model(firsts, model_key(events.last())) {
            } else {
                assert(model_key(out[firsts.len() as int]) == model_key(events.last()));
            }
        }
    }
}

/// Every event's task type is listed.
proof fn lemma_task_types_cover(events: Seq<CostEvent>)
    ensures
        forall|k: int| 0 <= k < events.len() ==> task_types(events).contains((#[trigger] events[k]).task_type),
    decreases events.len(),
{
    if events.len() > 0 {
        let prev = events.drop_last();
        lemma_task_types_cover(prev);
        let kinds = task_types(prev);
        let out = task_types(events);
        assert forall|k: int| 0 <= k < events.len() implies out.contains((#[trigger] events[k]).task_type) by {
            if k < prev.len() {
                assert(events[k] == prev[k]);
                assert(kinds.contains(prev[k].task_type));
                let w = choose|w: int| 0 <= w < kinds.len() && kinds[w] == prev[k].task_type;
                assert(out[w] == kinds[w]);
            } else if !kinds.contains(events.last().task_type) {
                assert(out[kinds.len() as int] == events.last().task_type);
            }
        }
    }
}

/// A folded tally holds tokens exactly when some cost payload was readable.
proof fn lemma_tally_tokens(costs: Seq<Option<CostPayload>>)
    ensures
        tally_of(costs) matches Some(t) ==> (t.has_tokens <==> some_readable(costs)),
    decreases costs.len(),
{
    if costs.len() > 0 {
        let prev = costs.drop_last();
        lemma_tally_tokens(prev);
        if some_readable(prev) {
            let k = choose|k: int| 0 <= k < prev.len() && (#[trigger] prev[k]) is Some;
            assert(costs[k] == prev[k]);
        }
        if some_readable(costs) && costs.last() is None {
            let k = choose|k: int| 0 <= k < costs.len() && (#[trigger] costs[k]) is Some;
            assert(prev[k] == costs[k]);
        }
        if costs.last() is Some {
            assert(costs[costs.len() - 1] is Some);
        }
    }
}

/// Every cost event is counted once in the per-model breakdown and once in
/// the per-task-type breakdown: each breakdown's request counts add up to
/// the number of events.
pub proof fn usage_breakdowns_count_every_event(r: crate::usage::SessionUsageResponse, events: Seq<CostEvent>)
    requires
        crate::usage::usage_fits(events),
        is_session_usage(r, events),
    ensures
        model_request_sum(r.by_model@) == events.len(),
        task_request_sum(r.by_task_type@) == events.len(),
{
    let firsts = model_firsts(events);
    let kinds = task_types(events);
    lemma_model_buckets_partition(events);
    lemma_task_buckets_partition(events);
    assert forall|n: int| 0 <= n <= firsts.len() implies
        #[trigger] model_request_sum(r.by_model@.subrange(0, n)) == model_bucket_sizes(events, firsts.subrange(0, n)) by {
        lemma_model_sums_agree(r, events, n);
    }
    assert(r.by_model@.subrange(0, firsts.len() as int) =~= r.by_model@);
    assert(firsts.subrange(0, firsts.len() as int) =~= firsts);
    assert forall|n: int| 0 <= n <= kinds.len() implies
        #[trigger] task_request_sum(r.by_task_type@.subrange(0, n)) == task_bucket_sizes(events, kinds.subrange(0, n)) by {
        lemma_task_sums_agree(r, events, n);
    }
    assert(r.by_task_type@.subrange(0, kinds.len() as int) =~= r.by_task_type@);
    assert(kinds.subrange(0, kinds.len() as int) =~= kinds);
}

/// The request counts of the first `n` model entries are the sizes of their
/// buckets.
proof fn lemma_model_sums_agree(r: crate::usage::SessionUsageResponse, events: Seq<CostEvent>, n: int)
    requires
        crate::usage::usage_fits(events),
        is_session_usage(r, events),
        0 <= n <= model_firsts(events).len(),
    ensures
        model_request_sum(r.by_model@.subrange(0, n)) == model_bucket_sizes(events, model_firsts(events).subrange(0, n)),
    decreases n,
{
    let firsts = model_firsts(events);
    if n > 0 {
        lemma_model_sums_agree(r, events, n - 1);
        assert(r.by_model@.subrange(0, n).drop_last() =~= r.by_model@.subrange(0, n - 1));
        assert(firsts.subrange(0, n).drop_last() =~= firsts.subrange(0, n - 1));
        let first = firsts[n - 1];
        let costs = model_costs(events, model_key(first));
        assert(r.by_model[n - 1].request_count == tally_of(costs)->Some_0.requests);
        crate::usage::lemma_first_bucket_fits(events, n - 1);
        lemma_tally_counts_requests(costs);
    }
}

/// The request counts of the first `n` task-type entries are the sizes of
/// their buckets.
proof fn lemma_task_sums_agree(r: crate::usage::SessionUsageResponse, events: Seq<CostEvent>, n: int)
    requires
        crate::usage::usage_fits(events),
        is_session_usage(r, events),
        0 <= n <= task_types(events).len(),
    ensures
        task_request_sum(r.by_task_type@.subrange(0, n)) == task_bucket_sizes(events, task_types(events).subrange(0, n)),
    decreases n,
{
    let kinds = task_types(events);
    if n > 0 {
        lemma_task_sums_agree(r, events, n - 1);
        assert(r.by_task_type@.subrange(0, n).drop_last() =~= r.by_task_type@.subrange(0, n - 1));
        assert(kinds.subrange(0, n).drop_last() =~= kinds.subrange(0, n - 1));
        let costs = task_costs(events, kinds[n - 1]);
        assert(r.by_task_type[n - 1].request_count == tally_of(costs)->Some_0.requests);
        crate::usage::lemma_task_bucket_fits(events, n - 1);
        lemma_tally_counts_requests(costs);
    }
}

/// The remaining fallbacks are exactly the chain after the first reference
/// naming the chosen model, and none when no reference names it.
pub proof fn remaining_fallbacks_follow_the_chosen_model(chain: Seq<ModelReference>, chosen: ModelReference)
    ensures
        (forall|j: int| 0 <= j < chain.len() ==> !same_reference(#[trigger] chain[j], chosen))
            ==> after_first(chain, chosen) == Seq::<ModelReference>::empty(),
        forall|k: int| #![trigger chain[k]]
            0 <= k < chain.len() && same_reference(chain[k], chosen)
            && (forall|j: int| 0 <= j < k ==> !same_reference(#[trigger] chain[j], chosen))
            ==> after_first(chain, chosen) == chain.skip(k + 1),
    decreases chain.len(),
{
    if chain.len() > 0 {
        let rest = chain.drop_first();
        remaining_fallbacks_follow_the_chosen_model(rest, chosen);
        assert forall|j: int| 0 <= j < rest.len() implies rest[j] == chain[j + 1] by {}
        assert forall|k: int| #![trigger chain[k]]
            0 <= k < chain.len() && same_reference(chain[k], chosen)
            && (forall|j: int| 0 <= j < k ==> !same_reference(#[trigger] chain[j], chosen))
            implies after_first(chain, chosen) == chain.skip(k + 1) by {
            if k > 0 {
                assert(!same_reference(chain[0], chosen));
                assert(rest[k - 1] == chain[k]);
                assert forall|j: int| 0 <= j < k - 1 implies !same_reference(#[trigger] rest[j], chosen) by {
                    assert(rest[j] == chain[j + 1]);
                }
                assert(rest.skip(k) =~= chain.skip(k + 1));
            } else {
                assert(chain.drop_first() =~= chain.skip(1));
            }
        }
        if forall|j: int| 0 <= j < chain.len() ==> !same_reference(#[trigger] chain[j], chosen) {
            assert forall|j: int| 0 <= j < rest.len() implies !same_reference(#[trigger] rest[j], chosen) by {
                assert(rest[j] == chain[j + 1]);
            }
            assert(!same_reference(chain[0], chosen));
        }
    }
}

/// Whether `part` occurs in `whole` as a run of consecutive characters.
pub open spec fn occurs_within(part: Seq<char>, whole: Seq<char>) -> bool {
    exists|k: int| 0 <= k && k + part.len() <= whole.len() && #[trigger] whole.subrange(k, k + part.len()) == part
}

/// A workspace offers a context kind exactly when its snapshot holds that
/// part: `referenced_paths` when it references at least one path,
/// `git_diff`, `git_branch` and `active_file` when each is present.
pub proof fn context_kinds_follow_the_workspace(workspace: Workspace)
    ensures
        spec_context_kinds(workspace).contains("referenced_paths"@) <==> workspace.referenced_paths.len() > 0,
        spec_context_kinds(workspace).contains("git_diff"@) <==> workspace.git_diff is Some,
        spec_context_kinds(workspace).contains("git_branch"@) <==> workspace.git_branch is Some,
        spec_context_kinds(workspace).contains("active_file"@) <==> workspace.active_file is Some,
{
    reveal_strlit("referenced_paths");
    reveal_strlit("git_diff");
    reveal_strlit("git_branch");
    reveal_strlit("active_file");
    let kinds = spec_context_kinds(workspace);
    let names = seq!["git_diff"@, "git_branch"@, "active_file"@, "referenced_paths"@];
    assert(names[0].len() == 8 && names[3].len() == 16 && names[1].len() == 10 && names[2].len() == 11);
    assert(names[0] != names[1] && names[0] != names[2] && names[0] != names[3]);
    assert(names[1] != names[2] && names[1] != names[3] && names[2] != names[3]);
    assert forall|x: Seq<char>| #[trigger] kinds.contains(x) implies
        (x == names[0] && workspace.git_diff is Some) || (x == names[1] && workspace.git_branch is Some)
        || (x == names[2] && workspace.active_file is Some) || (x == names[3] && workspace.referenced_paths.len() > 0) by {
        let k = choose|k: int| 0 <= k < kinds.len() && kinds[k] == x;
    }
    if workspace.referenced_paths.len() > 0 {
        assert(kinds[kinds.len() - 1] == names[3]);
    }
    if workspace.git_diff is Some {
        assert(kinds[0] == names[0]);
    }
    if workspace.git_branch is Some {
        let k: int = if workspace.git_diff is Some { 1 } else { 0 };
        assert(kinds[k] == names[1]);
    }
    if workspace.active_file is Some {
        let k: int = (if workspace.git_diff is Some { 1int } else { 0int }) + (if workspace.git_branch is Some { 1int } else { 0int });
        assert(kinds[k] == names[2]);
    }
}

/// Among matching rules of equal priority the more specific one wins: a rule
/// with both an intent and a path condition takes precedence over one that
/// lacks either, a rule with only a path condition over one with no path
/// condition, and a rule with only an intent condition over a catch-all. So
/// when the more specific rule matches the task, the less specific one is
/// never the winning rule.
pub proof fn more_specific_rules_win_priority_ties(task: NormalizedTask, rules: Seq<crate::types::RoutingRule>, a: int, b: int)
    requires
        0 <= a < rules.len(),
        0 <= b < rules.len(),
        rules[a].priority == rules[b].priority,
        ({
            let (pa, ia) = (rules[a].paths.len() > 0, rules[a].intent is Some);
            let (pb, ib) = (rules[b].paths.len() > 0, rules[b].intent is Some);
            ||| pa && ia && !(pb && ib)
            ||| pa && !ia && !pb
            ||| !pa && ia && !pb && !ib
        }),
    ensures
        takes_precedence(rules, a, b),
        !takes_precedence(rules, b, a),
        crate::normalizer::spec_task_matches(task.classification.intent, task.skills@, task.touched_files.deep_view(), rules[a])
            ==> !is_winning_route_rule(task, rules, b),
{
}

/// A selected model has every capability the turn asks for, the route's
/// capability gate included, and its window holds the estimated context.
pub proof fn selected_models_meet_the_requirements(
    selection: ModelSelection,
    route: RouteMatch,
    requirements: RoutingRequirements,
    catalog: Seq<ModelDescriptor>,
    credentialed: Seq<Provider>,
    restricted: bool,
)
    requires
        is_selection(Ok(selection), route, requirements, catalog, credentialed, restricted),
    ensures
        ({
            let c = selection.model.capabilities;
            &&& requirements.streaming ==> c.streaming
            &&& requirements.tools ==> c.tools
            &&& requirements.json_output ==> c.json_output
            &&& requirements.system_prompt ==> c.system_prompt
            &&& requirements.images ==> c.images
            &&& requirements.reasoning ==> c.reasoning
            &&& requirements.memory ==> c.memory
        }),
        match route_rule(route) {
            Some(rule) => match rule.requires_capabilities {
                Some(gate) => {
                    let c = selection.model.capabilities;
                    &&& gate.streaming ==> c.streaming
                    &&& gate.tools ==> c.tools
                    &&& gate.json_output ==> c.json_output
                    &&& gate.system_prompt ==> c.system_prompt
                    &&& gate.images ==> c.images
                    &&& gate.reasoning ==> c.reasoning
                    &&& gate.memory ==> c.memory
                },
                None => true,
            },
            None => true,
        },
        requirements.estimated_tokens matches Some(t) ==> t <= selection.model.max_context_tokens,
{
    let i = choose|i: int| {
        &&& 0 <= i < candidates(route).len()
        &&& candidate_usable(route, i, catalog, credentialed, requirements, restricted)
        &&& (forall|j: int| 0 <= j < i ==> !#[trigger] candidate_usable(route, j, catalog, credentialed, requirements, restricted))
        &&& catalog_lookup(catalog, candidates(route)[i]) == Some(selection.model)
        &&& selection.fallback_used == (i > 0)
    };
    let effective = crate::model_selector::spec_effective_requirements(requirements, route_rule(route));
    assert(crate::model_selector::spec_usable(candidates(route)[i], catalog, credentialed, effective,
        spec_local_required(route, restricted)));
    assert(crate::types::spec_can_handle(selection.model, effective));
}

/// A history message about a path in focus (one the workspace references, or
/// one the matched rule's path globs match) scores `PATH_AFFINITY_BONUS`
/// above its tier plus recency bonus; any other message scores exactly its
/// tier plus recency bonus.
pub proof fn focused_messages_earn_the_affinity_bonus(
    route: RouteMatch,
    workspace: Workspace,
    privacy: PrivacyPolicy,
    message: RecalledMessage,
    index: nat,
    count: nat,
)
    ensures
        message_view(route, workspace, privacy, message, index, count).score == SCORE_MESSAGE + spec_recency_bonus(index, count)
            + if message.path matches Some(p) && (
                (exists|i: int| 0 <= i < workspace.referenced_paths.len()
                    && crate::text::same_path(#[trigger] workspace.referenced_paths.deep_view()[i], p@))
                || (route_rule(route) matches Some(rule) && crate::globs::spec_glob_set_matches(rule.paths.deep_view(), p@))
            ) { PATH_AFFINITY_BONUS as nat } else { 0 },
{
}

/// A prompt word that lies wholly within a keyword, or wholly contains it,
/// is a different word and never a typo of it: when every token other than
/// the keyword itself does, the keyword does not match at all (so
/// `preview` does not match `review`).
pub proof fn words_within_words_are_no_typos(needle: Seq<char>, tokens: Seq<Seq<char>>)
    requires
        forall|i: int| 0 <= i < tokens.len() ==> #[trigger] tokens[i] != lowercase(needle)
            && (occurs_within(tokens[i], lowercase(needle)) || occurs_within(lowercase(needle), tokens[i])),
    ensures
        spec_token_match(needle, tokens) is None,
{
    let lowered = lowercase(needle);
    assert(!tokens.contains(lowered));
    assert forall|i: int| 0 <= i < tokens.len() implies !crate::fuzzy::spec_is_typo(lowered, #[trigger] tokens[i], crate::fuzzy::spec_fuzzy_cap(lowered.len())) by {
        if occurs_within(tokens[i], lowered) {
            let k = choose|k: int| 0 <= k && k + tokens[i].len() <= lowered.len() && #[trigger] lowered.subrange(k, k + tokens[i].len()) == tokens[i];
            assert(crate::text::occurs_at(lowered, tokens[i], k));
        } else {
            let k = choose|k: int| 0 <= k && k + lowered.len() <= tokens[i].len() && #[trigger] tokens[i].subrange(k, k + lowered.len()) == lowered;
            assert(crate::text::occurs_at(tokens[i], lowered, k));
        }
    }
}

} // verus!
