//! Context selection: the resolver's deterministic, LLM-free context stage.
//!
//! [`ContextSelector`] straddles model selection and is pure: every content
//! field it receives is plain text the caller already recalled.
//!
//! - [`ContextSelector::build_candidates`] runs before the model is chosen. It
//!   folds the recalled material and the request into one [`CandidateSet`],
//!   ranks it for relevance, and marks each candidate restricted-for-remote
//!   and required-or-discardable with a size estimate. Those marks constrain
//!   model selection.
//! - [`ContextSelector::finalize`] runs after, trimming the set to the chosen
//!   model's window without ever dropping a required candidate.

use vstd::prelude::*;
use crate::estimator::{estimate_tokens, token_estimate};
use crate::globs::{glob_set_matches, spec_glob_set_matches};
use crate::policy_matcher::{route_rule, RouteMatch};
use crate::resolver::{Attachments, ContextFile, ContextInstruction, Workspace};
use crate::text::{paths_equal, same_path};
use crate::types::{role_name, spec_restricted_for_remote, MessageRole, ModelDescriptor, PrivacyPolicy, Skill};

verus! {

/// Base relevance score for an attached file.
pub const SCORE_FILE: u32 = 5000;
/// Base relevance score for the workspace git diff.
pub const SCORE_DIFF: u32 = 4000;
/// Base relevance score for a recalled history message.
pub const SCORE_MESSAGE: u32 = 3000;
/// Base relevance score for a recalled memory fact.
pub const SCORE_MEMORY: u32 = 2000;
/// Base relevance score for a skill the model may activate on its own.
pub const SCORE_AVAILABLE_SKILL: u32 = 1000;
/// Bonus for a candidate whose path is in the task's focus; just above the
/// largest recency bonus, so path relevance edges out mere recency.
pub const PATH_AFFINITY_BONUS: u32 = 500;
/// Largest recency bonus a history message can earn.
pub const MAX_RECENCY_BONUS: u32 = 499;
/// Reply reserve assumed when a model leaves its output unbounded.
pub const DEFAULT_REPLY_RESERVE_TOKENS: u64 = 256;

/// What the caller recalled and decrypted for a turn, as plain text.
#[derive(Debug)]
pub struct RecalledContext {
    /// The session's conversation history, oldest first.
    pub messages: Vec<RecalledMessage>,
    /// User-wide memory facts.
    pub user_memory: Vec<MemoryFact>,
    /// Per-session memory facts.
    pub context_memory: Vec<MemoryFact>,
}

/// One recalled history message, with plain-text content.
#[derive(Debug)]
pub struct RecalledMessage {
    /// Who produced the message.
    pub role: MessageRole,
    /// The path the message concerns, when it has one.
    pub path: Option<String>,
    /// The plain-text content.
    pub content: String,
}

/// One recalled memory fact, with plain-text content.
#[derive(Debug)]
pub struct MemoryFact {
    /// The fact's key.
    pub key: String,
    /// The plain-text content.
    pub content: String,
}

/// The kind of a context candidate.
#[derive(Debug, Clone, Copy, PartialEq, Eq, Structural)]
pub enum CandidateKind {
    /// A history message.
    Message,
    /// An attached file.
    File,
    /// An instruction document.
    Instruction,
    /// A skill, invoked or available.
    Skill,
    /// A memory fact.
    Memory,
    /// A git diff.
    Diff,
}

/// Why a candidate was ranked in, recorded for the outcome.
#[derive(Debug)]
pub struct Relevance {
    /// The relevance score; higher ranks first.
    pub score: u32,
    /// A short, human-readable reason.
    pub reason: String,
}

/// One piece of candidate context, with its relevance and privacy marks.
#[derive(Debug)]
pub struct Candidate {
    /// What kind of context this is.
    pub kind: CandidateKind,
    /// The path it has, when any.
    pub path: Option<String>,
    /// The plain-text content.
    pub content: String,
    /// The deterministic token-size estimate.
    pub estimated_tokens: u64,
    /// Whether the content is restricted from remote providers by path.
    pub restricted_for_remote: bool,
    /// Whether the content is required and so cannot be dropped.
    pub required: bool,
    /// Why the candidate was kept, for the outcome's reason.
    pub relevance: Relevance,
}

/// The plain-value form of a candidate.
pub struct CandidateView {
    /// What kind of context this is.
    pub kind: CandidateKind,
    /// The path it has, when any.
    pub path: Option<Seq<char>>,
    /// The content.
    pub content: Seq<char>,
    /// The size estimate.
    pub estimated_tokens: nat,
    /// Whether the content is restricted from remote providers.
    pub restricted_for_remote: bool,
    /// Whether the content is required.
    pub required: bool,
    /// The relevance score.
    pub score: nat,
    /// The reason.
    pub reason: Seq<char>,
}

/// The characters of an optional string.
pub open spec fn opt_view(s: Option<String>) -> Option<Seq<char>> {
    match s {
        Some(x) => Some(x@),
        None => None,
    }
}

impl DeepView for Candidate {
    type V = CandidateView;

    open spec fn deep_view(&self) -> CandidateView {
        CandidateView {
            kind: self.kind,
            path: opt_view(self.path),
            content: self.content@,
            estimated_tokens: self.estimated_tokens as nat,
            restricted_for_remote: self.restricted_for_remote,
            required: self.required,
            score: self.relevance.score as nat,
            reason: self.relevance.reason@,
        }
    }
}

impl Candidate {
    /// A field-by-field copy.
    pub fn duplicate(&self) -> (r: Candidate)
        ensures
            r == *self,
    {
        Candidate {
            kind: self.kind,
            path: match &self.path {
                Some(p) => Some(p.clone()),
                None => None,
            },
            content: self.content.clone(),
            estimated_tokens: self.estimated_tokens,
            restricted_for_remote: self.restricted_for_remote,
            required: self.required,
            relevance: Relevance { score: self.relevance.score, reason: self.relevance.reason.clone() },
        }
    }
}

/// The model-agnostic universe context selection filters down.
#[derive(Debug)]
pub struct CandidateSet {
    /// The candidates, ranked and marked.
    pub candidates: Vec<Candidate>,
}

/// The finalized context for a turn.
#[derive(Debug)]
pub struct ResolvedContext {
    /// The candidates that made it into the prompt.
    pub included: Vec<Candidate>,
    /// The human-readable included and excluded descriptions.
    pub outcome: ContextOutcome,
    /// The references-only record of what was included or excluded.
    pub references: Vec<ContextReference>,
}

/// The human-readable summary of what context was included and excluded.
#[derive(Debug)]
pub struct ContextOutcome {
    /// Descriptions of included context.
    pub included: Vec<String>,
    /// Descriptions of excluded context.
    pub excluded: Vec<String>,
}

/// A references-only record of one context decision, for the trace.
#[derive(Debug)]
pub struct ContextReference {
    /// The path the context had, when any.
    pub path: Option<String>,
    /// What kind of context it was.
    pub kind: CandidateKind,
    /// Whether it was included in the prompt.
    pub included: bool,
    /// Why it was included or excluded.
    pub reason: String,
}

/// The plain-value form of a context reference.
pub struct ReferenceView {
    /// The path, when any.
    pub path: Option<Seq<char>>,
    /// The kind.
    pub kind: CandidateKind,
    /// Whether it was included.
    pub included: bool,
    /// The reason.
    pub reason: Seq<char>,
}

impl DeepView for ContextReference {
    type V = ReferenceView;

    open spec fn deep_view(&self) -> ReferenceView {
        ReferenceView { path: opt_view(self.path), kind: self.kind, included: self.included, reason: self.reason@ }
    }
}

/// An error finalizing the context for the chosen model.
#[derive(Debug)]
pub enum ContextError {
    /// The minimum required context does not fit the model's effective
    /// budget.
    WindowExceeded {
        /// The estimated token count of the required context.
        estimated: u64,
        /// The model's window minus the reply reserve.
        budget: u64,
    },
}

/// Whether `path` is one of the workspace's referenced paths.
pub open spec fn is_referenced(workspace: Workspace, path: Seq<char>) -> bool {
    exists|i: int| 0 <= i < workspace.referenced_paths.len() && same_path(#[trigger] workspace.referenced_paths.deep_view()[i], path)
}

/// Whether `path` matches the globs of the route's matched rule; an override
/// or the default route has none.
pub open spec fn spec_matches_route_paths(route: RouteMatch, path: Seq<char>) -> bool {
    match route_rule(route) {
        Some(rule) => spec_glob_set_matches(rule.paths.deep_view(), path),
        None => false,
    }
}

/// Whether `path` is in the task's focus: a referenced path, or a path
/// matching the globs that drove the route.
pub open spec fn spec_path_in_focus(route: RouteMatch, workspace: Workspace, path: Seq<char>) -> bool {
    is_referenced(workspace, path) || spec_matches_route_paths(route, path)
}

/// The path-affinity bonus of a candidate that may carry no path.
pub open spec fn spec_path_affinity(route: RouteMatch, workspace: Workspace, path: Option<Seq<char>>) -> nat {
    match path {
        Some(p) => if spec_path_in_focus(route, workspace, p) { PATH_AFFINITY_BONUS as nat } else { 0 },
        None => 0,
    }
}

/// The recency bonus of the message at `index` of `count`, oldest first: the
/// position scaled into `0..=MAX_RECENCY_BONUS`.
pub open spec fn spec_recency_bonus(index: nat, count: nat) -> nat {
    if count <= 1 {
        0
    } else {
        (index * (MAX_RECENCY_BONUS as nat) / ((count - 1) as nat)) as nat
    }
}

/// The candidate a recalled message becomes.
pub open spec fn message_view(route: RouteMatch, workspace: Workspace, privacy: PrivacyPolicy, message: RecalledMessage, index: nat, count: nat) -> CandidateView {
    let path = opt_view(message.path);
    CandidateView {
        kind: CandidateKind::Message,
        path,
        content: message.content@,
        estimated_tokens: token_estimate(message.content@.len()),
        restricted_for_remote: path matches Some(p) && spec_restricted_for_remote(privacy, p),
        required: false,
        score: SCORE_MESSAGE as nat + spec_recency_bonus(index, count) + spec_path_affinity(route, workspace, path),
        reason: role_name(message.role) + " message"@,
    }
}

/// The candidate a memory fact becomes.
pub open spec fn memory_view(fact: MemoryFact) -> CandidateView {
    CandidateView {
        kind: CandidateKind::Memory,
        path: None,
        content: fact.content@,
        estimated_tokens: token_estimate(fact.content@.len()),
        restricted_for_remote: false,
        required: false,
        score: SCORE_MEMORY as nat,
        reason: "memory '"@ + fact.key@ + "'"@,
    }
}

/// The candidate an attached file becomes.
pub open spec fn file_view(route: RouteMatch, workspace: Workspace, privacy: PrivacyPolicy, file: ContextFile) -> CandidateView {
    let focused = spec_path_in_focus(route, workspace, file.path@);
    CandidateView {
        kind: CandidateKind::File,
        path: Some(file.path@),
        content: file.content@,
        estimated_tokens: token_estimate(file.content@.len()),
        restricted_for_remote: spec_restricted_for_remote(privacy, file.path@),
        required: file.required || focused,
        score: SCORE_FILE as nat + if focused { PATH_AFFINITY_BONUS as nat } else { 0 },
        reason: "file '"@ + file.path@ + "'"@,
    }
}

/// The candidate an instruction document becomes.
pub open spec fn instruction_view(instruction: ContextInstruction) -> CandidateView {
    CandidateView {
        kind: CandidateKind::Instruction,
        path: None,
        content: instruction.content@,
        estimated_tokens: token_estimate(instruction.content@.len()),
        restricted_for_remote: false,
        required: true,
        score: SCORE_FILE as nat,
        reason: "instruction '"@ + instruction.source@ + "'"@,
    }
}

/// The candidate a skill becomes: required when invoked, discardable when
/// only offered.
pub open spec fn skill_view(skill: Skill, invoked: bool) -> CandidateView {
    CandidateView {
        kind: CandidateKind::Skill,
        path: None,
        content: skill.content@,
        estimated_tokens: token_estimate(skill.content@.len()),
        restricted_for_remote: false,
        required: invoked,
        score: if invoked { SCORE_FILE as nat } else { SCORE_AVAILABLE_SKILL as nat },
        reason: (if invoked { "invoked"@ } else { "available"@ }) + " skill '"@ + skill.name@ + "'"@,
    }
}

/// The candidate the workspace git diff becomes.
pub open spec fn diff_view(diff: Seq<char>) -> CandidateView {
    CandidateView {
        kind: CandidateKind::Diff,
        path: None,
        content: diff,
        estimated_tokens: token_estimate(diff.len()),
        restricted_for_remote: false,
        required: false,
        score: SCORE_DIFF as nat,
        reason: "git diff"@,
    }
}

/// Every candidate the turn's material yields, before de-duplication:
/// history, memory (user-wide then per-session), files, instructions, invoked
/// skills, available skills, then the git diff.
pub open spec fn raw_candidates(route: RouteMatch, recalled: RecalledContext, attachments: Attachments, workspace: Workspace, privacy: PrivacyPolicy) -> Seq<CandidateView> {
    let messages = recalled.messages@;
    let memory = recalled.user_memory@ + recalled.context_memory@;
    Seq::new(messages.len(), |i: int| message_view(route, workspace, privacy, messages[i], i as nat, messages.len()))
        + memory.map_values(|fact: MemoryFact| memory_view(fact))
        + attachments.files@.map_values(|file: ContextFile| file_view(route, workspace, privacy, file))
        + attachments.instructions@.map_values(|instruction: ContextInstruction| instruction_view(instruction))
        + attachments.invoked_skills@.map_values(|skill: Skill| skill_view(skill, true))
        + attachments.available_skills@.map_values(|skill: Skill| skill_view(skill, false))
        + match workspace.git_diff {
            Some(diff) => seq![diff_view(diff@)],
            None => Seq::empty(),
        }
}

/// The size estimate of each piece of material a turn attaches, in the order
/// the candidates are built from it.
pub open spec fn material_sizes(recalled: RecalledContext, attachments: Attachments, workspace: Workspace) -> Seq<nat> {
    recalled.messages@.map_values(|m: RecalledMessage| token_estimate(m.content@.len()))
        + (recalled.user_memory@ + recalled.context_memory@).map_values(|f: MemoryFact| token_estimate(f.content@.len()))
        + attachments.files@.map_values(|f: ContextFile| token_estimate(f.content@.len()))
        + attachments.instructions@.map_values(|d: ContextInstruction| token_estimate(d.content@.len()))
        + attachments.invoked_skills@.map_values(|k: Skill| token_estimate(k.content@.len()))
        + attachments.available_skills@.map_values(|k: Skill| token_estimate(k.content@.len()))
        + match workspace.git_diff {
            Some(diff) => seq![token_estimate(diff@.len())],
            None => Seq::empty(),
        }
}

/// The sum of a sequence of sizes.
pub open spec fn sum_sizes(sizes: Seq<nat>) -> nat
    decreases sizes.len(),
{
    if sizes.len() == 0 {
        0
    } else {
        sum_sizes(sizes.drop_last()) + sizes.last()
    }
}

/// The estimated size of everything a turn attaches.
pub open spec fn material_tokens(recalled: RecalledContext, attachments: Attachments, workspace: Workspace) -> nat {
    sum_sizes(material_sizes(recalled, attachments, workspace))
}

/// The size estimate of each candidate.
pub open spec fn candidate_sizes(candidates: Seq<CandidateView>) -> Seq<nat> {
    candidates.map_values(|c: CandidateView| c.estimated_tokens)
}

/// The identity a candidate is de-duplicated by: its path, or its content
/// when it has no path.
pub open spec fn spec_dedupe_key(c: CandidateView) -> Seq<char> {
    match c.path {
        Some(p) => "path:"@ + p,
        None => "content:"@ + c.content,
    }
}

/// Whether `candidate` replaces `existing` when they collide: a required
/// candidate beats a discardable one, otherwise the higher score wins.
pub open spec fn spec_supersedes(candidate: CandidateView, existing: CandidateView) -> bool {
    if candidate.required && !existing.required {
        true
    } else if !candidate.required && existing.required {
        false
    } else {
        candidate.score > existing.score
    }
}

/// The first position of `kept` whose candidate has the given key.
pub open spec fn first_with_key(kept: Seq<CandidateView>, key: Seq<char>) -> Option<int>
    decreases kept.len(),
{
    if kept.len() == 0 {
        None
    } else {
        match first_with_key(kept.drop_last(), key) {
            Some(k) => Some(k),
            None => if spec_dedupe_key(kept.last()) == key { Some(kept.len() - 1) } else { None },
        }
    }
}

/// The candidates with duplicates collapsed, in first-seen order: each
/// candidate either joins the list, or takes the place of the candidate with
/// its key when it supersedes it.
pub open spec fn spec_dedupe(candidates: Seq<CandidateView>) -> Seq<CandidateView>
    decreases candidates.len(),
{
    if candidates.len() == 0 {
        Seq::empty()
    } else {
        let kept = spec_dedupe(candidates.drop_last());
        let c = candidates.last();
        match first_with_key(kept, spec_dedupe_key(c)) {
            Some(k) => if spec_supersedes(c, kept[k]) { kept.update(k, c) } else { kept },
            None => kept.push(c),
        }
    }
}

/// The summed size of all candidates.
pub open spec fn total_tokens(candidates: Seq<CandidateView>) -> nat
    decreases candidates.len(),
{
    if candidates.len() == 0 {
        0
    } else {
        total_tokens(candidates.drop_last()) + candidates.last().estimated_tokens
    }
}

/// The summed size of the required candidates.
pub open spec fn required_total(candidates: Seq<CandidateView>) -> nat
    decreases candidates.len(),
{
    if candidates.len() == 0 {
        0
    } else {
        required_total(candidates.drop_last()) + if candidates.last().required { candidates.last().estimated_tokens } else { 0 }
    }
}

/// The candidates that are required (or, with `required == false`,
/// discardable), in order.
pub open spec fn with_required(candidates: Seq<CandidateView>, required: bool) -> Seq<CandidateView>
    decreases candidates.len(),
{
    if candidates.len() == 0 {
        Seq::empty()
    } else {
        let rest = with_required(candidates.drop_last(), required);
        if candidates.last().required == required { rest.push(candidates.last()) } else { rest }
    }
}

/// Inserts `c` into a list ordered by descending score, after every
/// candidate that scores at least as high (a stable insertion).
pub open spec fn insert_by_score(sorted: Seq<CandidateView>, c: CandidateView) -> Seq<CandidateView>
    decreases sorted.len(),
{
    if sorted.len() == 0 {
        seq![c]
    } else if sorted.last().score >= c.score {
        sorted.push(c)
    } else {
        insert_by_score(sorted.drop_last(), c).push(sorted.last())
    }
}

/// The candidates in descending score order; equal scores keep their order
/// (a stable sort).
pub open spec fn sort_by_score(candidates: Seq<CandidateView>) -> Seq<CandidateView>
    decreases candidates.len(),
{
    if candidates.len() == 0 {
        Seq::empty()
    } else {
        insert_by_score(sort_by_score(candidates.drop_last()), candidates.last())
    }
}

/// Fits discardable candidates in order: each one that still fits the budget
/// is included, the rest are excluded. Returns (included, excluded).
pub open spec fn fit_in_order(sorted: Seq<CandidateView>, used: nat, budget: nat) -> (Seq<CandidateView>, Seq<CandidateView>)
    decreases sorted.len(),
{
    if sorted.len() == 0 {
        (Seq::empty(), Seq::empty())
    } else {
        let c = sorted[0];
        if used + c.estimated_tokens <= budget {
            let rest = fit_in_order(sorted.drop_first(), used + c.estimated_tokens, budget);
            (seq![c] + rest.0, rest.1)
        } else {
            let rest = fit_in_order(sorted.drop_first(), used, budget);
            (rest.0, seq![c] + rest.1)
        }
    }
}

/// The effective budget of a model: its window minus the reply reserve (its
/// output limit, or a default reserve when unbounded), floored at zero.
pub open spec fn spec_budget(model: ModelDescriptor) -> nat {
    let reserve: nat = match model.max_output_tokens {
        Some(limit) => limit as nat,
        None => DEFAULT_REPLY_RESERVE_TOKENS as nat,
    };
    if model.max_context_tokens as nat >= reserve { (model.max_context_tokens as nat - reserve) as nat } else { 0 }
}

/// The reference recording one context decision.
pub open spec fn reference_view(c: CandidateView, included: bool) -> ReferenceView {
    ReferenceView { path: c.path, kind: c.kind, included, reason: c.reason }
}

/// The reasons of the candidates, in order.
pub open spec fn reasons(candidates: Seq<CandidateView>) -> Seq<Seq<char>> {
    candidates.map_values(|c: CandidateView| c.reason)
}

/// Whether `r` is the finalized context of `candidates` for `model`.
///
/// Every required candidate is included; the discardable ones are taken in
/// descending score order (equal scores in their given order) while they
/// fit the budget left after the required ones. The outcome lists the
/// included and excluded reasons, and the references record the included
/// candidates, then the excluded ones.
pub open spec fn is_finalized(r: ResolvedContext, candidates: Seq<CandidateView>, model: ModelDescriptor) -> bool {
    let required = with_required(candidates, true);
    let fitted = fit_in_order(sort_by_score(with_required(candidates, false)), required_total(candidates), spec_budget(model));
    let included = required + fitted.0;
    &&& r.included.deep_view() == included
    &&& r.outcome.included.deep_view() == reasons(included)
    &&& r.outcome.excluded.deep_view() == reasons(fitted.1)
    &&& r.references.deep_view() == included.map_values(|c: CandidateView| reference_view(c, true))
        + fitted.1.map_values(|c: CandidateView| reference_view(c, false))
}

/// Whether any candidate is restricted from remote providers.
pub open spec fn spec_has_restricted(candidates: Seq<CandidateView>) -> bool {
    exists|i: int| 0 <= i < candidates.len() && (#[trigger] candidates[i]).restricted_for_remote
}

/// Whether any required candidate is restricted from remote providers.
pub open spec fn spec_has_restricted_required(candidates: Seq<CandidateView>) -> bool {
    exists|i: int| 0 <= i < candidates.len() && (#[trigger] candidates[i]).restricted_for_remote && candidates[i].required
}

/// The total of the candidates is the sum of their sizes.
pub proof fn lemma_total_is_sum(s: Seq<CandidateView>)
    ensures
        total_tokens(s) == sum_sizes(candidate_sizes(s)),
    decreases s.len(),
{
    if s.len() > 0 {
        lemma_total_is_sum(s.drop_last());
        assert(candidate_sizes(s.drop_last()) =~= candidate_sizes(s).drop_last());
    }
}

/// The candidates built from a turn's material total exactly the material's
/// estimated size, whatever the route and privacy policy.
pub proof fn lemma_raw_total(
    route: RouteMatch,
    recalled: RecalledContext,
    attachments: Attachments,
    workspace: Workspace,
    privacy: PrivacyPolicy,
)
    ensures
        total_tokens(raw_candidates(route, recalled, attachments, workspace, privacy)) == material_tokens(recalled, attachments, workspace),
{
    let raw = raw_candidates(route, recalled, attachments, workspace, privacy);
    lemma_total_is_sum(raw);
    assert(candidate_sizes(raw) =~= material_sizes(recalled, attachments, workspace));
}

/// Updating one candidate changes the total by the difference of sizes.
pub proof fn lemma_total_update(s: Seq<CandidateView>, k: int, c: CandidateView)
    requires
        0 <= k < s.len(),
    ensures
        total_tokens(s.update(k, c)) + s[k].estimated_tokens == total_tokens(s) + c.estimated_tokens,
    decreases s.len(),
{
    let u = s.update(k, c);
    assert(u.drop_last() =~= if k == s.len() - 1 { s.drop_last() } else { s.drop_last().update(k, c) });
    if k < s.len() - 1 {
        lemma_total_update(s.drop_last(), k, c);
    }
}

/// Collapsing duplicates never grows the total size.
pub proof fn lemma_dedupe_total(s: Seq<CandidateView>)
    ensures
        total_tokens(spec_dedupe(s)) <= total_tokens(s),
    decreases s.len(),
{
    if s.len() > 0 {
        lemma_dedupe_total(s.drop_last());
        let kept = spec_dedupe(s.drop_last());
        let c = s.last();
        match first_with_key(kept, spec_dedupe_key(c)) {
            Some(k) => {
                lemma_first_with_key_in_range(kept, spec_dedupe_key(c));
                if spec_supersedes(c, kept[k]) {
                    lemma_total_update(kept, k, c);
                }
            },
            None => {
                assert(kept.push(c).drop_last() =~= kept);
            },
        }
    }
}

/// A found position is in range, holds the key, and no earlier one does.
pub proof fn lemma_first_with_key_in_range(kept: Seq<CandidateView>, key: Seq<char>)
    ensures
        match first_with_key(kept, key) {
            Some(k) => 0 <= k < kept.len() && spec_dedupe_key(kept[k]) == key
                && forall|j: int| 0 <= j < k ==> spec_dedupe_key(#[trigger] kept[j]) != key,
            None => forall|j: int| 0 <= j < kept.len() ==> spec_dedupe_key(#[trigger] kept[j]) != key,
        },
    decreases kept.len(),
{
    if kept.len() > 0 {
        let prev = kept.drop_last();
        lemma_first_with_key_in_range(prev, key);
        assert(forall|j: int| 0 <= j < prev.len() ==> prev[j] == kept[j]);
        match first_with_key(prev, key) {
            Some(k) => {},
            None => {
                assert forall|j: int| 0 <= j < kept.len() - 1 implies spec_dedupe_key(#[trigger] kept[j]) != key by {
                    assert(prev[j] == kept[j]);
                }
            },
        }
    }
}

/// The required candidates never outweigh all of them.
pub proof fn lemma_required_total(s: Seq<CandidateView>)
    ensures
        required_total(s) <= total_tokens(s),
    decreases s.len(),
{
    if s.len() > 0 {
        lemma_required_total(s.drop_last());
    }
}

/// The required total is the total of the required candidates.
pub proof fn lemma_with_required_total(s: Seq<CandidateView>)
    ensures
        total_tokens(with_required(s, true)) == required_total(s),
        total_tokens(with_required(s, true)) + total_tokens(with_required(s, false)) == total_tokens(s),
    decreases s.len(),
{
    if s.len() > 0 {
        lemma_with_required_total(s.drop_last());
        let r = with_required(s.drop_last(), true);
        let d = with_required(s.drop_last(), false);
        assert(r.push(s.last()).drop_last() =~= r);
        assert(d.push(s.last()).drop_last() =~= d);
    }
}

/// The recency bonus for the message at `index` of `count`, oldest first.
///
/// Scales the position into `0..=MAX_RECENCY_BONUS`, so the newest message
/// earns the most and the oldest none. A single message earns nothing. An
/// index past the last message scales past the range the same way, and a
/// result too large for a `u32` is capped at `MAX_RECENCY_BONUS`.
pub fn recency_bonus(index: usize, count: usize) -> (bonus: u32)
    ensures
        count <= 1 ==> bonus == 0,
        count > 1 ==> bonus as int == if index * MAX_RECENCY_BONUS / (count - 1) <= u32::MAX {
            index * MAX_RECENCY_BONUS / (count - 1)
        } else {
            MAX_RECENCY_BONUS as int
        },
        index < count ==> bonus as nat == spec_recency_bonus(index as nat, count as nat) && bonus <= MAX_RECENCY_BONUS,
{
    if count <= 1 {
        return 0;
    }
    let position = index as u128;
    let span = (count - 1) as u128;
    assert(index < count ==> (position as int * 499) / (span as int) <= 499) by (nonlinear_arith)
        requires span > 0, index < count ==> position <= span;
    assert(0 <= (position as int * 499) / (span as int) <= position as int * 499) by (nonlinear_arith)
        requires span > 0, position >= 0;
    assert(position * 499 <= u64::MAX as int * 499) by (nonlinear_arith)
        requires position <= u64::MAX;
    let scaled = position * (MAX_RECENCY_BONUS as u128) / span;
    if scaled <= u32::MAX as u128 {
        scaled as u32
    } else {
        MAX_RECENCY_BONUS
    }
}

/// Returns whether `path` matches one of the route's route-driving path
/// globs. Only a matched rule carries paths; an invalid glob matches nothing.
pub fn matches_route_paths(route: &RouteMatch<'_>, path: &str) -> (r: bool)
    ensures
        r == spec_matches_route_paths(*route, path@),
{
    match route.matched_rule() {
        Some(rule) => glob_set_matches(&rule.paths, path),
        None => false,
    }
}

/// Returns whether `path` is in the task's focus: a referenced path, or a
/// path matching the globs that drove the route.
pub fn path_in_focus(route: &RouteMatch<'_>, workspace: &Workspace, path: &str) -> (r: bool)
    ensures
        r == spec_path_in_focus(*route, *workspace, path@),
{
    let mut i: usize = 0;
    while i < workspace.referenced_paths.len()
        invariant
            i <= workspace.referenced_paths.len(),
            forall|j: int| 0 <= j < i ==> !same_path(#[trigger] workspace.referenced_paths.deep_view()[j], path@),
        decreases workspace.referenced_paths.len() - i,
    {
        if paths_equal(workspace.referenced_paths[i].as_str(), path) {
            assert(same_path(workspace.referenced_paths.deep_view()[i as int], path@));
            return true;
        }
        i = i + 1;
    }
    matches_route_paths(route, path)
}

/// The path-affinity bonus for a candidate that may carry no path.
pub fn path_affinity(route: &RouteMatch<'_>, workspace: &Workspace, path: &Option<String>) -> (bonus: u32)
    ensures
        bonus as nat == spec_path_affinity(*route, *workspace, opt_view(*path)),
{
    match path {
        Some(p) => if path_in_focus(route, workspace, p.as_str()) { PATH_AFFINITY_BONUS } else { 0 },
        None => 0,
    }
}

/// Builds a candidate for a skill: required when invoked, discardable when
/// only offered.
pub fn skill_candidate(skill: &Skill, invoked: bool) -> (c: Candidate)
    ensures
        c.deep_view() == skill_view(*skill, invoked),
{
    let (score, role) = if invoked { (SCORE_FILE, "invoked") } else { (SCORE_AVAILABLE_SKILL, "available") };
    let mut reason = String::from_str(role);
    reason.append(" skill '");
    reason.append(skill.name.as_str());
    reason.append("'");
    Candidate {
        kind: CandidateKind::Skill,
        path: None,
        content: skill.content.clone(),
        estimated_tokens: estimate_tokens(skill.content.as_str()),
        restricted_for_remote: false,
        required: invoked,
        relevance: Relevance { score, reason },
    }
}

/// The candidate a recalled message becomes.
fn message_candidate(
    route: &RouteMatch<'_>,
    workspace: &Workspace,
    privacy: &PrivacyPolicy,
    message: &RecalledMessage,
    index: usize,
    count: usize,
) -> (c: Candidate)
    requires
        index < count,
    ensures
        c.deep_view() == message_view(*route, *workspace, *privacy, *message, index as nat, count as nat),
{
    let restricted = match &message.path {
        Some(path) => privacy.is_restricted_for_remote(path.as_str()),
        None => false,
    };
    let score = SCORE_MESSAGE + recency_bonus(index, count) + path_affinity(route, workspace, &message.path);
    let mut reason = String::from_str(message.role.name());
    reason.append(" message");
    Candidate {
        kind: CandidateKind::Message,
        path: match &message.path {
            Some(p) => Some(p.clone()),
            None => None,
        },
        content: message.content.clone(),
        estimated_tokens: estimate_tokens(message.content.as_str()),
        restricted_for_remote: restricted,
        required: false,
        relevance: Relevance { score, reason },
    }
}

/// The candidate a memory fact becomes.
fn memory_candidate(fact: &MemoryFact) -> (c: Candidate)
    ensures
        c.deep_view() == memory_view(*fact),
{
    let mut reason = String::from_str("memory '");
    reason.append(fact.key.as_str());
    reason.append("'");
    Candidate {
        kind: CandidateKind::Memory,
        path: None,
        content: fact.content.clone(),
        estimated_tokens: estimate_tokens(fact.content.as_str()),
        restricted_for_remote: false,
        required: false,
        relevance: Relevance { score: SCORE_MEMORY, reason },
    }
}

/// The candidate an attached file becomes.
fn file_candidate(route: &RouteMatch<'_>, workspace: &Workspace, privacy: &PrivacyPolicy, file: &ContextFile) -> (c: Candidate)
    ensures
        c.deep_view() == file_view(*route, *workspace, *privacy, *file),
{
    let focused = path_in_focus(route, workspace, file.path.as_str());
    let affinity = if focused { PATH_AFFINITY_BONUS } else { 0 };
    let mut reason = String::from_str("file '");
    reason.append(file.path.as_str());
    reason.append("'");
    Candidate {
        kind: CandidateKind::File,
        path: Some(file.path.clone()),
        content: file.content.clone(),
        estimated_tokens: estimate_tokens(file.content.as_str()),
        restricted_for_remote: privacy.is_restricted_for_remote(file.path.as_str()),
        required: file.required || focused,
        relevance: Relevance { score: SCORE_FILE + affinity, reason },
    }
}

/// The candidate an instruction document becomes.
fn instruction_candidate(instruction: &ContextInstruction) -> (c: Candidate)
    ensures
        c.deep_view() == instruction_view(*instruction),
{
    let mut reason = String::from_str("instruction '");
    reason.append(instruction.source.as_str());
    reason.append("'");
    Candidate {
        kind: CandidateKind::Instruction,
        path: None,
        content: instruction.content.clone(),
        estimated_tokens: estimate_tokens(instruction.content.as_str()),
        restricted_for_remote: false,
        required: true,
        relevance: Relevance { score: SCORE_FILE, reason },
    }
}

/// The candidate the workspace git diff becomes.
fn diff_candidate(diff: &String) -> (c: Candidate)
    ensures
        c.deep_view() == diff_view(diff@),
{
    Candidate {
        kind: CandidateKind::Diff,
        path: None,
        content: diff.clone(),
        estimated_tokens: estimate_tokens(diff.as_str()),
        restricted_for_remote: false,
        required: false,
        relevance: Relevance { score: SCORE_DIFF, reason: String::from_str("git diff") },
    }
}

/// Builds a references-only record of one context decision.
pub fn reference_for(candidate: &Candidate, included: bool) -> (r: ContextReference)
    ensures
        r.deep_view() == reference_view(candidate.deep_view(), included),
{
    ContextReference {
        path: match &candidate.path {
            Some(p) => Some(p.clone()),
            None => None,
        },
        kind: candidate.kind,
        included,
        reason: candidate.relevance.reason.clone(),
    }
}

/// The identity a candidate is de-duplicated by: its path, or its content
/// when it has no path.
pub fn dedupe_key(candidate: &Candidate) -> (key: String)
    ensures
        key@ == spec_dedupe_key(candidate.deep_view()),
{
    match &candidate.path {
        Some(path) => {
            let mut key = String::from_str("path:");
            key.append(path.as_str());
            key
        },
        None => {
            let mut key = String::from_str("content:");
            key.append(candidate.content.as_str());
            key
        },
    }
}

/// Returns whether `candidate` should replace `existing` when they collide.
pub fn supersedes(candidate: &Candidate, existing: &Candidate) -> (r: bool)
    ensures
        r == spec_supersedes(candidate.deep_view(), existing.deep_view()),
{
    if candidate.required && !existing.required {
        true
    } else if !candidate.required && existing.required {
        false
    } else {
        candidate.relevance.score > existing.relevance.score
    }
}

/// The first position of `kept` whose candidate has the given key.
fn find_key(kept: &Vec<Candidate>, key: &String) -> (r: Option<usize>)
    ensures
        match r {
            Some(k) => first_with_key(kept.deep_view(), key@) == Some(k as int),
            None => first_with_key(kept.deep_view(), key@) is None,
        },
{
    let ghost all = kept.deep_view();
    let mut i: usize = 0;
    while i < kept.len()
        invariant
            i <= kept.len(),
            all == kept.deep_view(),
            first_with_key(all.subrange(0, i as int), key@) is None,
        decreases kept.len() - i,
    {
        let ghost prefix = all.subrange(0, i + 1);
        assert(prefix.drop_last() =~= all.subrange(0, i as int));
        let candidate_key = dedupe_key(&kept[i]);
        if candidate_key == *key {
            proof {
                assert(first_with_key(prefix, key@) == Some(i as int));
                lemma_first_with_key_prefix(all, key@, i as int + 1);
            }
            return Some(i);
        }
        i = i + 1;
    }
    assert(all.subrange(0, all.len() as int) =~= all);
    None
}

/// A key found in a prefix is found at the same position in the whole list.
proof fn lemma_first_with_key_prefix(s: Seq<CandidateView>, key: Seq<char>, n: int)
    requires
        0 <= n <= s.len(),
        first_with_key(s.subrange(0, n), key) is Some,
    ensures
        first_with_key(s, key) == first_with_key(s.subrange(0, n), key),
    decreases s.len() - n,
{
    if n < s.len() {
        let longer = s.subrange(0, n + 1);
        assert(longer.drop_last() =~= s.subrange(0, n));
        lemma_first_with_key_prefix(s, key, n + 1);
    } else {
        assert(s.subrange(0, n) =~= s);
    }
}

/// Collapses duplicate candidates, keeping the required or higher-ranked
/// copy.
///
/// Two candidates collide when they share a path, or when both are pathless
/// and share their content. The kept candidate is the required one, or, when
/// both agree on required, the higher-scored one.
pub fn dedupe(candidates: Vec<Candidate>) -> (deduped: Vec<Candidate>)
    ensures
        deduped.deep_view() == spec_dedupe(candidates.deep_view()),
{
    let ghost all = candidates.deep_view();
    let mut deduped: Vec<Candidate> = Vec::new();
    let mut i: usize = 0;
    assert(all.subrange(0, 0) =~= Seq::<CandidateView>::empty());
    assert(deduped.deep_view() =~= Seq::<CandidateView>::empty());
    while i < candidates.len()
        invariant
            i <= candidates.len(),
            all == candidates.deep_view(),
            deduped.deep_view() == spec_dedupe(all.subrange(0, i as int)),
        decreases candidates.len() - i,
    {
        let ghost prefix = all.subrange(0, i + 1);
        assert(prefix.drop_last() =~= all.subrange(0, i as int));
        assert(prefix.last() == candidates[i as int].deep_view());
        let candidate = candidates[i].duplicate();
        let key = dedupe_key(&candidate);
        let ghost before = deduped.deep_view();
        match find_key(&deduped, &key) {
            Some(k) => {
                proof {
                    lemma_first_with_key_in_range(before, key@);
                }
                if supersedes(&candidate, &deduped[k]) {
                    deduped.set(k, candidate);
                    assert(deduped.deep_view() =~= before.update(k as int, candidates[i as int].deep_view()));
                }
            },
            None => {
                deduped.push(candidate);
                assert(deduped.deep_view() =~= before.push(candidates[i as int].deep_view()));
            },
        }
        i = i + 1;
    }
    assert(all.subrange(0, all.len() as int) =~= all);
    deduped
}

impl CandidateSet {
    /// Whether any required candidate is restricted from remote providers.
    ///
    /// When this holds the turn must be served locally: required restricted
    /// content can never be dropped, so a remote model would receive it.
    pub fn has_restricted_required_content(&self) -> (r: bool)
        ensures
            r == spec_has_restricted_required(self.candidates.deep_view()),
    {
        let mut i: usize = 0;
        while i < self.candidates.len()
            invariant
                i <= self.candidates.len(),
                forall|j: int| 0 <= j < i ==> !((#[trigger] self.candidates.deep_view()[j]).restricted_for_remote && self.candidates.deep_view()[j].required),
            decreases self.candidates.len() - i,
        {
            if self.candidates[i].restricted_for_remote && self.candidates[i].required {
                assert(self.candidates.deep_view()[i as int].restricted_for_remote);
                return true;
            }
            i = i + 1;
        }
        false
    }

    /// Whether any candidate, required or not, is restricted from remote
    /// providers; a turn holding one is served locally.
    pub fn has_restricted_content(&self) -> (r: bool)
        ensures
            r == spec_has_restricted(self.candidates.deep_view()),
    {
        let mut i: usize = 0;
        while i < self.candidates.len()
            invariant
                i <= self.candidates.len(),
                forall|j: int| 0 <= j < i ==> !(#[trigger] self.candidates.deep_view()[j]).restricted_for_remote,
            decreases self.candidates.len() - i,
        {
            if self.candidates[i].restricted_for_remote {
                assert(self.candidates.deep_view()[i as int].restricted_for_remote);
                return true;
            }
            i = i + 1;
        }
        false
    }

    /// The token floor a model must accommodate: the sum of the required
    /// candidates' sizes.
    pub fn required_tokens(&self) -> (tokens: u64)
        requires
            required_total(self.candidates.deep_view()) <= u64::MAX,
        ensures
            tokens as nat == required_total(self.candidates.deep_view()),
    {
        let ghost all = self.candidates.deep_view();
        let mut sum: u64 = 0;
        let mut i: usize = 0;
        assert(all.subrange(0, 0) =~= Seq::<CandidateView>::empty());
        while i < self.candidates.len()
            invariant
                i <= self.candidates.len(),
                all == self.candidates.deep_view(),
                required_total(all) <= u64::MAX,
                sum as nat == required_total(all.subrange(0, i as int)),
            decreases self.candidates.len() - i,
        {
            let ghost prefix = all.subrange(0, i + 1);
            assert(prefix.drop_last() =~= all.subrange(0, i as int));
            proof {
                lemma_prefix_required_total(all, i + 1);
            }
            if self.candidates[i].required {
                sum = sum + self.candidates[i].estimated_tokens;
            }
            i = i + 1;
        }
        assert(all.subrange(0, all.len() as int) =~= all);
        sum
    }
}

/// The required candidates of a prefix never outweigh those of the whole
/// list.
pub proof fn lemma_prefix_required_total(s: Seq<CandidateView>, n: int)
    requires
        0 <= n <= s.len(),
    ensures
        required_total(s.subrange(0, n)) <= required_total(s),
    decreases s.len() - n,
{
    if n < s.len() {
        lemma_prefix_required_total(s, n + 1);
        assert(s.subrange(0, n + 1).drop_last() =~= s.subrange(0, n));
    } else {
        assert(s.subrange(0, n) =~= s);
    }
}

/// A prefix never outweighs the whole list.
pub proof fn lemma_prefix_total(s: Seq<CandidateView>, n: int)
    requires
        0 <= n <= s.len(),
    ensures
        total_tokens(s.subrange(0, n)) <= total_tokens(s),
    decreases s.len() - n,
{
    if n < s.len() {
        lemma_prefix_total(s, n + 1);
        assert(s.subrange(0, n + 1).drop_last() =~= s.subrange(0, n));
    } else {
        assert(s.subrange(0, n) =~= s);
    }
}

/// Inserting after the last candidate that scores at least as high is the
/// stable insertion `insert_by_score` describes.
proof fn lemma_insert_by_score(sorted: Seq<CandidateView>, c: CandidateView, pos: int)
    requires
        0 <= pos <= sorted.len(),
        pos == 0 || sorted[pos - 1].score >= c.score,
        forall|j: int| pos <= j < sorted.len() ==> (#[trigger] sorted[j]).score < c.score,
    ensures
        insert_by_score(sorted, c) == sorted.insert(pos, c),
    decreases sorted.len(),
{
    if sorted.len() == 0 {
        assert(sorted.insert(pos, c) =~= seq![c]);
    } else if sorted.last().score >= c.score {
        assert(pos == sorted.len());
        assert(sorted.insert(pos, c) =~= sorted.push(c));
    } else {
        let prev = sorted.drop_last();
        assert(pos < sorted.len());
        assert forall|j: int| pos <= j < prev.len() implies (#[trigger] prev[j]).score < c.score by {
            assert(prev[j] == sorted[j]);
        }
        if pos > 0 {
            assert(prev[pos - 1] == sorted[pos - 1]);
        }
        lemma_insert_by_score(prev, c, pos);
        assert(prev.insert(pos, c).push(sorted.last()) =~= sorted.insert(pos, c));
    }
}

/// The views of a list of messages, as candidates.
pub open spec fn message_views(route: RouteMatch, workspace: Workspace, privacy: PrivacyPolicy, messages: Seq<RecalledMessage>) -> Seq<CandidateView> {
    Seq::new(messages.len(), |i: int| message_view(route, workspace, privacy, messages[i], i as nat, messages.len()))
}

/// Deterministic, LLM-free context selection; holds no state.
#[derive(Debug, Default)]
pub struct ContextSelector;

impl ContextSelector {
    /// Builds the relevance-ranked, privacy-marked candidate set for a turn.
    ///
    /// Folds `recalled` (history and memory) together with the request's
    /// `attachments` and `workspace` into one set, ranks each candidate for
    /// relevance to `route`, marks it restricted-for-remote (per `privacy`)
    /// and required-or-discardable, sizes it with the token estimator, and
    /// collapses duplicates.
    pub fn build_candidates(
        &self,
        route: &RouteMatch<'_>,
        recalled: &RecalledContext,
        attachments: &Attachments,
        workspace: &Workspace,
        privacy: &PrivacyPolicy,
    ) -> (set: CandidateSet)
        ensures
            set.candidates.deep_view() == spec_dedupe(raw_candidates(*route, *recalled, *attachments, *workspace, *privacy)),
            total_tokens(set.candidates.deep_view()) <= total_tokens(raw_candidates(*route, *recalled, *attachments, *workspace, *privacy)),
    {
        let mut raw: Vec<Candidate> = Vec::new();
        let count = recalled.messages.len();
        let ghost messages = message_views(*route, *workspace, *privacy, recalled.messages@);
        let mut i: usize = 0;
        assert(raw.deep_view() =~= messages.subrange(0, 0));
        while i < count
            invariant
                i <= count,
                count == recalled.messages.len(),
                messages == message_views(*route, *workspace, *privacy, recalled.messages@),
                raw.deep_view() == messages.subrange(0, i as int),
            decreases count - i,
        {
            let c = message_candidate(route, workspace, privacy, &recalled.messages[i], i, count);
            let ghost before = raw.deep_view();
            raw.push(c);
            assert(raw.deep_view() =~= before.push(messages[i as int]));
            assert(messages.subrange(0, i + 1) =~= messages.subrange(0, i as int).push(messages[i as int]));
            i = i + 1;
        }
        assert(messages.subrange(0, count as int) =~= messages);
        let ghost stage = raw.deep_view();
        let ghost user = recalled.user_memory@.map_values(|fact: MemoryFact| memory_view(fact));
        let mut k: usize = 0;
        while k < recalled.user_memory.len()
            invariant
                k <= recalled.user_memory.len(),
                user == recalled.user_memory@.map_values(|fact: MemoryFact| memory_view(fact)),
                raw.deep_view() == stage + user.subrange(0, k as int),
            decreases recalled.user_memory.len() - k,
        {
            let c = memory_candidate(&recalled.user_memory[k]);
            let ghost before = raw.deep_view();
            raw.push(c);
            assert(raw.deep_view() =~= before.push(user[k as int]));
            assert(stage + user.subrange(0, k + 1) =~= (stage + user.subrange(0, k as int)).push(user[k as int]));
            k = k + 1;
        }
        assert(user.subrange(0, user.len() as int) =~= user);
        let ghost stage = raw.deep_view();
        let ghost session = recalled.context_memory@.map_values(|fact: MemoryFact| memory_view(fact));
        let mut k: usize = 0;
        while k < recalled.context_memory.len()
            invariant
                k <= recalled.context_memory.len(),
                session == recalled.context_memory@.map_values(|fact: MemoryFact| memory_view(fact)),
                raw.deep_view() == stage + session.subrange(0, k as int),
            decreases recalled.context_memory.len() - k,
        {
            let c = memory_candidate(&recalled.context_memory[k]);
            let ghost before = raw.deep_view();
            raw.push(c);
            assert(raw.deep_view() =~= before.push(session[k as int]));
            assert(stage + session.subrange(0, k + 1) =~= (stage + session.subrange(0, k as int)).push(session[k as int]));
            k = k + 1;
        }
        assert(session.subrange(0, session.len() as int) =~= session);
        assert((recalled.user_memory@ + recalled.context_memory@).map_values(|fact: MemoryFact| memory_view(fact)) =~= user + session);
        let ghost stage = raw.deep_view();
        let ghost files = attachments.files@.map_values(|file: ContextFile| file_view(*route, *workspace, *privacy, file));
        let mut k: usize = 0;
        while k < attachments.files.len()
            invariant
                k <= attachments.files.len(),
                files == attachments.files@.map_values(|file: ContextFile| file_view(*route, *workspace, *privacy, file)),
                raw.deep_view() == stage + files.subrange(0, k as int),
            decreases attachments.files.len() - k,
        {
            let c = file_candidate(route, workspace, privacy, &attachments.files[k]);
            let ghost before = raw.deep_view();
            raw.push(c);
            assert(raw.deep_view() =~= before.push(files[k as int]));
            assert(stage + files.subrange(0, k + 1) =~= (stage + files.subrange(0, k as int)).push(files[k as int]));
            k = k + 1;
        }
        assert(files.subrange(0, files.len() as int) =~= files);
        let ghost stage = raw.deep_view();
        let ghost instructions = attachments.instructions@.map_values(|instruction: ContextInstruction| instruction_view(instruction));
        let mut k: usize = 0;
        while k < attachments.instructions.len()
            invariant
                k <= attachments.instructions.len(),
                instructions == attachments.instructions@.map_values(|instruction: ContextInstruction| instruction_view(instruction)),
                raw.deep_view() == stage + instructions.subrange(0, k as int),
            decreases attachments.instructions.len() - k,
        {
            let c = instruction_candidate(&attachments.instructions[k]);
            let ghost before = raw.deep_view();
            raw.push(c);
            assert(raw.deep_view() =~= before.push(instructions[k as int]));
            assert(stage + instructions.subrange(0, k + 1) =~= (stage + instructions.subrange(0, k as int)).push(instructions[k as int]));
            k = k + 1;
        }
        assert(instructions.subrange(0, instructions.len() as int) =~= instructions);
        let ghost stage = raw.deep_view();
        let ghost invoked = attachments.invoked_skills@.map_values(|skill: Skill| skill_view(skill, true));
        let mut k: usize = 0;
        while k < attachments.invoked_skills.len()
            invariant
                k <= attachments.invoked_skills.len(),
                invoked == attachments.invoked_skills@.map_values(|skill: Skill| skill_view(skill, true)),
                raw.deep_view() == stage + invoked.subrange(0, k as int),
            decreases attachments.invoked_skills.len() - k,
        {
            let c = skill_candidate(&attachments.invoked_skills[k], true);
            let ghost before = raw.deep_view();
            raw.push(c);
            assert(raw.deep_view() =~= before.push(invoked[k as int]));
            assert(stage + invoked.subrange(0, k + 1) =~= (stage + invoked.subrange(0, k as int)).push(invoked[k as int]));
            k = k + 1;
        }
        assert(invoked.subrange(0, invoked.len() as int) =~= invoked);
        let ghost stage = raw.deep_view();
        let ghost available = attachments.available_skills@.map_values(|skill: Skill| skill_view(skill, false));
        let mut k: usize = 0;
        while k < attachments.available_skills.len()
            invariant
                k <= attachments.available_skills.len(),
                available == attachments.available_skills@.map_values(|skill: Skill| skill_view(skill, false)),
                raw.deep_view() == stage + available.subrange(0, k as int),
            decreases attachments.available_skills.len() - k,
        {
            let c = skill_candidate(&attachments.available_skills[k], false);
            let ghost before = raw.deep_view();
            raw.push(c);
            assert(raw.deep_view() =~= before.push(available[k as int]));
            assert(stage + available.subrange(0, k + 1) =~= (stage + available.subrange(0, k as int)).push(available[k as int]));
            k = k + 1;
        }
        assert(available.subrange(0, available.len() as int) =~= available);
        let ghost stage = raw.deep_view();
        match &workspace.git_diff {
            Some(diff) => {
                raw.push(diff_candidate(diff));
                assert(raw.deep_view() =~= stage + seq![diff_view(diff@)]);
            },
            None => {
                assert(raw.deep_view() =~= stage + Seq::<CandidateView>::empty());
            },
        }
        assert(raw.deep_view() =~= raw_candidates(*route, *recalled, *attachments, *workspace, *privacy));
        let candidates = dedupe(raw);
        proof {
            lemma_dedupe_total(raw_candidates(*route, *recalled, *attachments, *workspace, *privacy));
        }
        CandidateSet { candidates }
    }

    /// Trims the candidate set to fit the chosen model's context window.
    ///
    /// Keeps every required candidate plus as much relevant discardable
    /// context as fits `model`, then reports the outcome. A required candidate
    /// is never dropped to make room; when the required context alone exceeds
    /// the budget, finalizing fails with [`ContextError::WindowExceeded`].
    pub fn finalize(&self, candidates: CandidateSet, model: &ModelDescriptor) -> (r: Result<ResolvedContext, ContextError>)
        requires
            required_total(candidates.candidates.deep_view()) <= u64::MAX,
        ensures
            match r {
                Ok(resolved) => required_total(candidates.candidates.deep_view()) <= spec_budget(*model)
                    && is_finalized(resolved, candidates.candidates.deep_view(), *model),
                Err(ContextError::WindowExceeded { estimated, budget }) => estimated as nat == required_total(candidates.candidates.deep_view())
                    && budget as nat == spec_budget(*model) && estimated > budget,
            },
    {
        let ghost all = candidates.candidates.deep_view();
        let reserve: u64 = match model.max_output_tokens {
            Some(limit) => limit as u64,
            None => DEFAULT_REPLY_RESERVE_TOKENS,
        };
        let window = model.max_context_tokens as u64;
        let budget: u64 = if window >= reserve { window - reserve } else { 0 };

        let mut required: Vec<Candidate> = Vec::new();
        let mut discardable: Vec<Candidate> = Vec::new();
        let mut i: usize = 0;
        assert(all.subrange(0, 0) =~= Seq::<CandidateView>::empty());
        while i < candidates.candidates.len()
            invariant
                i <= candidates.candidates.len(),
                all == candidates.candidates.deep_view(),
                required.deep_view() == with_required(all.subrange(0, i as int), true),
                discardable.deep_view() == with_required(all.subrange(0, i as int), false),
            decreases candidates.candidates.len() - i,
        {
            let ghost prefix = all.subrange(0, i + 1);
            assert(prefix.drop_last() =~= all.subrange(0, i as int));
            let c = candidates.candidates[i].duplicate();
            if c.required {
                let ghost before = required.deep_view();
                required.push(c);
                assert(required.deep_view() =~= before.push(all[i as int]));
            } else {
                let ghost before = discardable.deep_view();
                discardable.push(c);
                assert(discardable.deep_view() =~= before.push(all[i as int]));
            }
            i = i + 1;
        }
        assert(all.subrange(0, all.len() as int) =~= all);

        proof {
            lemma_with_required_total(all);
        }
        let ghost req = required.deep_view();
        let mut required_tokens: u64 = 0;
        let mut i: usize = 0;
        assert(req.subrange(0, 0) =~= Seq::<CandidateView>::empty());
        while i < required.len()
            invariant
                i <= required.len(),
                req == required.deep_view(),
                total_tokens(req) <= u64::MAX,
                required_tokens as nat == total_tokens(req.subrange(0, i as int)),
            decreases required.len() - i,
        {
            let ghost prefix = req.subrange(0, i + 1);
            assert(prefix.drop_last() =~= req.subrange(0, i as int));
            proof {
                lemma_prefix_total(req, i + 1);
            }
            required_tokens = required_tokens + required[i].estimated_tokens;
            i = i + 1;
        }
        assert(req.subrange(0, req.len() as int) =~= req);
        if required_tokens > budget {
            return Err(ContextError::WindowExceeded { estimated: required_tokens, budget });
        }

        // Keep the most relevant discardable context first; equally relevant
        // candidates keep their recalled order.
        let ghost disc = discardable.deep_view();
        let mut sorted: Vec<Candidate> = Vec::new();
        let mut i: usize = 0;
        assert(disc.subrange(0, 0) =~= Seq::<CandidateView>::empty());
        while i < discardable.len()
            invariant
                i <= discardable.len(),
                disc == discardable.deep_view(),
                sorted.deep_view() == sort_by_score(disc.subrange(0, i as int)),
            decreases discardable.len() - i,
        {
            let ghost prefix = disc.subrange(0, i + 1);
            assert(prefix.drop_last() =~= disc.subrange(0, i as int));
            let c = discardable[i].duplicate();
            let score = c.relevance.score;
            let ghost before = sorted.deep_view();
            let mut pos: usize = sorted.len();
            while pos > 0 && sorted[pos - 1].relevance.score < score
                invariant
                    pos <= sorted.len(),
                    before == sorted.deep_view(),
                    forall|j: int| pos <= j < sorted.len() ==> (#[trigger] before[j]).score < score,
                decreases pos,
            {
                pos = pos - 1;
            }
            proof {
                lemma_insert_by_score(before, disc[i as int], pos as int);
            }
            sorted.insert(pos, c);
            assert(sorted.deep_view() =~= before.insert(pos as int, disc[i as int]));
            i = i + 1;
        }
        assert(disc.subrange(0, disc.len() as int) =~= disc);

        let ghost ordered = sorted.deep_view();
        let ghost fitted = fit_in_order(ordered, required_total(all), budget as nat);
        let mut used: u64 = required_tokens;
        let mut included: Vec<Candidate> = required;
        let mut excluded: Vec<Candidate> = Vec::new();
        let ghost kept: Seq<CandidateView> = Seq::empty();
        let mut p: usize = 0;
        assert(ordered.skip(0) =~= ordered);
        while p < sorted.len()
            invariant
                p <= sorted.len(),
                ordered == sorted.deep_view(),
                used <= budget,
                included.deep_view() == req + kept,
                fitted == fit_in_order(ordered, required_total(all), budget as nat),
                fitted.0 == kept + fit_in_order(ordered.skip(p as int), used as nat, budget as nat).0,
                fitted.1 == excluded.deep_view() + fit_in_order(ordered.skip(p as int), used as nat, budget as nat).1,
            decreases sorted.len() - p,
        {
            let ghost rest = ordered.skip(p as int);
            assert(rest[0] == ordered[p as int]);
            assert(rest.drop_first() =~= ordered.skip(p + 1));
            let c = sorted[p].duplicate();
            if c.estimated_tokens <= budget - used {
                used = used + c.estimated_tokens;
                proof {
                    let tail = fit_in_order(ordered.skip(p + 1), used as nat, budget as nat);
                    assert(kept + (seq![ordered[p as int]] + tail.0) =~= kept.push(ordered[p as int]) + tail.0);
                    kept = kept.push(ordered[p as int]);
                }
                let ghost before = included.deep_view();
                included.push(c);
                assert(included.deep_view() =~= before.push(ordered[p as int]));
            } else {
                proof {
                    let tail = fit_in_order(ordered.skip(p + 1), used as nat, budget as nat);
                    assert(excluded.deep_view() + (seq![ordered[p as int]] + tail.1) =~= excluded.deep_view().push(ordered[p as int]) + tail.1);
                }
                let ghost before = excluded.deep_view();
                excluded.push(c);
                assert(excluded.deep_view() =~= before.push(ordered[p as int]));
            }
            p = p + 1;
        }
        proof {
            let rest = fit_in_order(ordered.skip(p as int), used as nat, budget as nat);
            assert(ordered.skip(p as int).len() == 0);
            assert(fitted.0 =~= kept);
            assert(fitted.1 =~= excluded.deep_view());
        }

        let ghost inc = included.deep_view();
        let ghost exc = excluded.deep_view();
        let mut included_reasons: Vec<String> = Vec::new();
        let mut references: Vec<ContextReference> = Vec::new();
        let mut i: usize = 0;
        while i < included.len()
            invariant
                i <= included.len(),
                inc == included.deep_view(),
                included_reasons.deep_view() =~= reasons(inc.subrange(0, i as int)),
                references.deep_view() =~= inc.subrange(0, i as int).map_values(|c: CandidateView| reference_view(c, true)),
            decreases included.len() - i,
        {
            let ghost step = inc.subrange(0, i + 1);
            assert(step =~= inc.subrange(0, i as int).push(inc[i as int]));
            assert(reasons(step) =~= reasons(inc.subrange(0, i as int)).push(inc[i as int].reason));
            assert(step.map_values(|c: CandidateView| reference_view(c, true)) =~= inc.subrange(0, i as int).map_values(
                |c: CandidateView| reference_view(c, true),
            ).push(reference_view(inc[i as int], true)));
            let ghost reasons_before = included_reasons.deep_view();
            let ghost refs_before = references.deep_view();
            included_reasons.push(included[i].relevance.reason.clone());
            references.push(reference_for(&included[i], true));
            assert(included_reasons.deep_view() =~= reasons_before.push(inc[i as int].reason));
            assert(references.deep_view() =~= refs_before.push(reference_view(inc[i as int], true)));
            i = i + 1;
        }
        assert(inc.subrange(0, inc.len() as int) =~= inc);
        let ghost included_refs = references.deep_view();
        let mut excluded_reasons: Vec<String> = Vec::new();
        let mut i: usize = 0;
        while i < excluded.len()
            invariant
                i <= excluded.len(),
                exc == excluded.deep_view(),
                excluded_reasons.deep_view() =~= reasons(exc.subrange(0, i as int)),
                references.deep_view() =~= included_refs + exc.subrange(0, i as int).map_values(|c: CandidateView| reference_view(c, false)),
            decreases excluded.len() - i,
        {
            let ghost step = exc.subrange(0, i + 1);
            assert(step =~= exc.subrange(0, i as int).push(exc[i as int]));
            assert(reasons(step) =~= reasons(exc.subrange(0, i as int)).push(exc[i as int].reason));
            assert(step.map_values(|c: CandidateView| reference_view(c, false)) =~= exc.subrange(0, i as int).map_values(
                |c: CandidateView| reference_view(c, false),
            ).push(reference_view(exc[i as int], false)));
            let ghost reasons_before = excluded_reasons.deep_view();
            let ghost refs_before = references.deep_view();
            excluded_reasons.push(excluded[i].relevance.reason.clone());
            references.push(reference_for(&excluded[i], false));
            assert(excluded_reasons.deep_view() =~= reasons_before.push(exc[i as int].reason));
            assert(references.deep_view() =~= refs_before.push(reference_view(exc[i as int], false)));
            i = i + 1;
        }
        assert(exc.subrange(0, exc.len() as int) =~= exc);
        Ok(ResolvedContext {
            included,
            outcome: ContextOutcome { included: included_reasons, excluded: excluded_reasons },
            references,
        })
    }
}

} // verus!
