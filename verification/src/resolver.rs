//! The resolver: derives the deterministic routing plan for a turn.
//!
//! Routing is staged. The task normalizer classifies the task intent without an
//! LLM and extracts the relevant skills and touched files; the policy matcher
//! picks exactly one route; the context selector builds the candidate context;
//! the model selector picks a usable model under the candidates' privacy and
//! size marks; and the context is finally trimmed to that model's window.
//! Every stage is pure: the same inputs always give the same plan.

use vstd::prelude::*;
use crate::context::{
    material_tokens, raw_candidates, required_total, spec_budget, spec_dedupe,
    spec_has_restricted, is_finalized, lemma_raw_total, lemma_dedupe_total, lemma_required_total, CandidateView, ContextError,
    ContextSelector, RecalledContext, ResolvedContext,
};
use crate::fuzzy::spec_tokenize;
use crate::model_selector::{candidates, is_selection, ModelSelection, ModelSelector, ModelSelectorError};
use crate::normalizer::{is_classification, NormalizedTask, TaskNormalizer};
use crate::policy_matcher::{
    is_policy_route, route_is_override, route_rule, some_rule_matches, PolicyMatchError,
    PolicyMatcher, RouteMatch,
};
use crate::signals::{spec_context_kinds, spec_relevant_skills, spec_touched_files};
use crate::types::{
    same_reference, ApiErrorCode, Classification, ClassificationConfig, ModelDescriptor,
    ModelReference, PrivacyPolicy, Provider, RoutingDecision, RoutingPolicy, RoutingRequirements,
    Skill, TaskIntent, permissions_view, PermissionMode, ToolsConfig,
};

verus! {

/// The user's request for one turn: prompt text, optional command and
/// override.
#[derive(Debug)]
pub struct TaskInput {
    /// The prompt text.
    pub text: String,
    /// Explicit task command, overriding intent detection when set.
    pub command: Option<TaskIntent>,
    /// Explicit model to use, bypassing routing when set.
    pub explicit_model: Option<ModelReference>,
}

/// Snapshot of the workspace a turn runs against.
#[derive(Debug)]
pub struct Workspace {
    /// Absolute path to the workspace root.
    pub root: String,
    /// Current git branch, if the workspace is a git repository.
    pub git_branch: Option<String>,
    /// Current git diff, if any.
    pub git_diff: Option<String>,
    /// Paths the user explicitly referenced.
    pub referenced_paths: Vec<String>,
    /// The file the user is actively editing, if any.
    pub active_file: Option<String>,
}

/// A file the caller attached, with whether it is required.
#[derive(Debug)]
pub struct ContextFile {
    /// Path of the file.
    pub path: String,
    /// File content.
    pub content: String,
    /// Whether the file is required and so cannot be dropped.
    pub required: bool,
}

/// An instruction document the caller attached as context.
#[derive(Debug)]
pub struct ContextInstruction {
    /// Where the instruction came from, for example `AGENTS.md`.
    pub source: String,
    /// The instruction content.
    pub content: String,
}

/// Local content the caller supplies because the resolver has no filesystem.
#[derive(Debug)]
pub struct Attachments {
    /// Explicit `@path` files included with their content.
    pub files: Vec<ContextFile>,
    /// Instruction documents the caller read from disk.
    pub instructions: Vec<ContextInstruction>,
    /// Skills the user explicitly invoked.
    pub invoked_skills: Vec<Skill>,
    /// Skills offered for the serving model to activate on its own.
    pub available_skills: Vec<Skill>,
}

/// Every input one [`Resolver::resolve`] call needs, supplied by the caller.
///
/// The resolver reads nothing for itself: the caller recalls history and
/// memory, and hands over the whole turn here.
#[derive(Debug)]
pub struct ResolveArgs<'a> {
    /// The user's request.
    pub input: &'a TaskInput,
    /// Snapshot of the workspace the turn runs against.
    pub workspace: &'a Workspace,
    /// Local files, instructions and skills the caller read from disk.
    pub attachments: &'a Attachments,
    /// History and memory the caller recalled for the turn.
    pub recalled: &'a RecalledContext,
    /// Intent-classification rules and the default intent.
    pub classification: &'a ClassificationConfig,
    /// Routing rules and the default route.
    pub routing: &'a RoutingPolicy,
    /// Privacy constraints on the context sent to models.
    pub privacy: &'a PrivacyPolicy,
    /// The capabilities the task needs of a model. Its `estimated_tokens` is
    /// ignored: the resolver sets it from the required context it builds.
    pub requirements: RoutingRequirements,
    /// The router's known model facts; the first entry for a reference wins.
    pub catalog: &'a Vec<ModelDescriptor>,
    /// The providers a credential was supplied for.
    pub credentialed: &'a Vec<Provider>,
    /// Whether the caller restricts the turn to local models, regardless of
    /// the route.
    pub local_only: bool,
}

/// The deterministic plan for one turn, the resolver's output.
#[derive(Debug)]
pub struct ResolvedTurn {
    /// The deterministic classification: intent plus provenance.
    pub classification: Classification,
    /// The routing decision for the turn.
    pub routing: RoutingDecision,
    /// The model the turn should be served by.
    pub model: ModelDescriptor,
    /// The route's fallback chain after the chosen model, in order.
    pub fallbacks: Vec<ModelReference>,
    /// The finalized context: what was included, what was excluded, and why.
    pub context: ResolvedContext,
    /// The tool permissions the matched rule requires; empty for an override
    /// or the default route.
    pub required_permissions: ToolsConfig,
}

/// An error resolving a turn, one variant per fallible stage.
#[derive(Debug)]
pub enum ResolverError {
    /// Context selection could not fit the required context to the chosen
    /// model.
    Context(ContextError),
    /// Model selection found no usable model for the route.
    Model(ModelSelectorError),
    /// Policy matching found no route for the task.
    Routing(PolicyMatchError),
}

impl ResolverError {
    /// Maps the error onto the stable [`ApiErrorCode`] clients match on.
    ///
    /// A failed context fit is a context-window rejection; a model-selection
    /// failure is either an exhausted route or a forbidden override; an
    /// unmatched policy with no default is a missing route.
    pub fn api_code(&self) -> (code: ApiErrorCode)
        ensures
            code == match *self {
                ResolverError::Context(_) => ApiErrorCode::ContextWindowExceeded,
                ResolverError::Model(ModelSelectorError::OverrideNotAllowed(_)) => ApiErrorCode::OverrideNotAllowed,
                ResolverError::Model(_) => ApiErrorCode::FallbackExhausted,
                ResolverError::Routing(_) => ApiErrorCode::NoRoute,
            },
    {
        match self {
            ResolverError::Context(_) => ApiErrorCode::ContextWindowExceeded,
            ResolverError::Model(ModelSelectorError::FallbackExhausted) => ApiErrorCode::FallbackExhausted,
            ResolverError::Model(ModelSelectorError::NoLocalModel) => ApiErrorCode::FallbackExhausted,
            ResolverError::Model(ModelSelectorError::OverrideNotAllowed(_)) => ApiErrorCode::OverrideNotAllowed,
            ResolverError::Routing(PolicyMatchError::NoRoute) => ApiErrorCode::NoRoute,
        }
    }
}

/// Whether `task` is the normalized form of the request: its classification,
/// the skills among `skills` relevant to the prompt, and the touched files.
pub open spec fn is_normalized(
    task: NormalizedTask,
    input: TaskInput,
    workspace: Workspace,
    skills: Seq<Skill>,
    config: ClassificationConfig,
) -> bool {
    &&& is_classification(task.classification, input.command, spec_tokenize(input.text@), spec_context_kinds(workspace), config)
    &&& task.skills@ == spec_relevant_skills(skills, spec_tokenize(input.text@))
    &&& task.touched_files.deep_view() == spec_touched_files(workspace)
}

/// Whether `route` is the route the policy picks for `task`, given the
/// request's explicit model, if any.
pub open spec fn is_route_for(route: RouteMatch, task: NormalizedTask, policy: RoutingPolicy, explicit: Option<ModelReference>) -> bool {
    match explicit {
        Some(model) => is_policy_route(route, task, policy, Some(&model)),
        None => is_policy_route(route, task, policy, None),
    }
}

/// The references of `chain` after the first one naming `chosen`; none when
/// no reference names it.
pub open spec fn after_first(chain: Seq<ModelReference>, chosen: ModelReference) -> Seq<ModelReference>
    decreases chain.len(),
{
    if chain.len() == 0 {
        Seq::empty()
    } else if same_reference(chain[0], chosen) {
        chain.drop_first()
    } else {
        after_first(chain.drop_first(), chosen)
    }
}

/// The reference a descriptor describes.
pub open spec fn described(model: ModelDescriptor) -> ModelReference {
    ModelReference { provider: model.provider, model: model.model }
}

/// The requirements model selection fits against: the task's, sized by the
/// required context.
pub open spec fn turn_requirements(base: RoutingRequirements, built: Seq<CandidateView>) -> RoutingRequirements {
    RoutingRequirements {
        streaming: base.streaming,
        tools: base.tools,
        json_output: base.json_output,
        system_prompt: base.system_prompt,
        images: base.images,
        reasoning: base.reasoning,
        memory: base.memory,
        estimated_tokens: Some(required_total(built) as u64),
    }
}

/// Whether the turn may only be served locally: a candidate is restricted
/// from remote providers, or the caller asked for local models.
pub open spec fn turn_restricted(built: Seq<CandidateView>, local_only: bool) -> bool {
    spec_has_restricted(built) || local_only
}

/// The routing record of a route served by `selection`.
pub open spec fn spec_routing_decision(route: RouteMatch, selection: ModelSelection) -> RoutingDecision {
    RoutingDecision {
        intent: route.intent,
        provider: selection.model.provider,
        model: selection.model.model,
        matched_rule: match route_rule(route) {
            Some(rule) => Some(rule.name),
            None => None,
        },
        fallback_used: selection.fallback_used,
        override_used: route_is_override(route),
        reason: route.reason,
    }
}

/// The tool permissions a route requires: the matched rule's, or none.
pub open spec fn route_permissions(route: RouteMatch) -> Seq<(Seq<char>, PermissionMode)> {
    match route_rule(route) {
        Some(rule) => permissions_view(rule.required_permissions),
        None => Seq::empty(),
    }
}

/// Whether `r` is the outcome of serving `route` for `task`.
///
/// The context built for the route is de-duplicated; the turn is restricted
/// to local models when any candidate is restricted or the caller
/// asked for local models only; model selection runs against the task's
/// requirements sized by the required context; and the context is finalized
/// to the chosen model's window.
pub open spec fn is_routed_resolution(
    r: Result<ResolvedTurn, ResolverError>,
    args: ResolveArgs,
    task: NormalizedTask,
    route: RouteMatch,
) -> bool {
    let built = spec_dedupe(raw_candidates(route, *args.recalled, *args.attachments, *args.workspace, *args.privacy));
    let restricted = turn_restricted(built, args.local_only);
    let requirements = turn_requirements(args.requirements, built);
    exists|selection: Result<ModelSelection, ModelSelectorError>| {
        &&& #[trigger] is_selection(selection, route, requirements, args.catalog@, args.credentialed@, restricted)
        &&& match selection {
            Err(e) => r == Err::<ResolvedTurn, ResolverError>(ResolverError::Model(e)),
            Ok(chosen) => if required_total(built) <= spec_budget(chosen.model) {
                &&& r matches Ok(turn)
                &&& turn.classification == task.classification
                &&& turn.routing == spec_routing_decision(route, chosen)
                &&& turn.model == chosen.model
                &&& turn.fallbacks@ == after_first(candidates(route), described(chosen.model))
                &&& permissions_view(turn.required_permissions) == route_permissions(route)
                &&& is_finalized(turn.context, built, chosen.model)
            } else {
                &&& r matches Err(ResolverError::Context(ContextError::WindowExceeded { estimated, budget }))
                &&& estimated as nat == required_total(built)
                &&& budget as nat == spec_budget(chosen.model)
            },
        }
    }
}

/// Whether `r` is the outcome of resolving the turn `args` describes.
///
/// The request is normalized (against the invoked skills), the routing
/// policy picks a route or, with no override, no matching rule and no
/// default, the turn fails with `NoRoute`; the route is then served as
/// [`is_routed_resolution`] says.
pub open spec fn is_resolution(r: Result<ResolvedTurn, ResolverError>, args: ResolveArgs) -> bool {
    exists|task: NormalizedTask| {
        &&& #[trigger] is_normalized(task, *args.input, *args.workspace, args.attachments.invoked_skills@, *args.classification)
        &&& if args.input.explicit_model is None && !some_rule_matches(task, args.routing.rules@) && args.routing.default is None {
            r == Err::<ResolvedTurn, ResolverError>(ResolverError::Routing(PolicyMatchError::NoRoute))
        } else {
            exists|route: RouteMatch| #[trigger] is_route_for(route, task, *args.routing, args.input.explicit_model)
                && is_routed_resolution(r, args, task, route)
        }
    }
}

/// The route's fallback references after the chosen model, in order.
///
/// The candidate chain is the primary model followed by the route's
/// fallbacks; the chosen model is the first usable one, and the remaining
/// fallbacks are those after it. When the chosen model is not on the chain
/// there are none.
pub fn remaining_fallbacks(route: &RouteMatch<'_>, chosen: &ModelReference) -> (r: Vec<ModelReference>)
    ensures
        r@ == after_first(candidates(*route), *chosen),
{
    let fallbacks = route.fallbacks();
    let ghost chain = candidates(*route);
    let ghost fb = fallbacks@;
    assert(chain.drop_first() =~= fb.skip(0));
    let start: usize;
    if route.model().same(chosen) {
        start = 0;
    } else {
        let mut k: usize = 0;
        while k < fallbacks.len() && !fallbacks[k].same(chosen)
            invariant
                k <= fallbacks.len(),
                fb == fallbacks@,
                after_first(chain, *chosen) == after_first(fb.skip(k as int), *chosen),
            decreases fallbacks.len() - k,
        {
            assert(fb.skip(k as int)[0] == fb[k as int]);
            assert(fb.skip(k as int).drop_first() =~= fb.skip(k + 1));
            k = k + 1;
        }
        if k == fallbacks.len() {
            assert(fb.skip(k as int).len() == 0);
            return Vec::new();
        }
        assert(fb.skip(k as int)[0] == fb[k as int]);
        assert(fb.skip(k as int).drop_first() =~= fb.skip(k + 1));
        start = k + 1;
    }
    let mut r: Vec<ModelReference> = Vec::new();
    let mut i: usize = start;
    while i < fallbacks.len()
        invariant
            start <= i <= fallbacks.len(),
            fb == fallbacks@,
            after_first(chain, *chosen) == fb.skip(start as int),
            r@ == fb.subrange(start as int, i as int),
        decreases fallbacks.len() - i,
    {
        r.push(fallbacks[i].duplicate());
        assert(fb.subrange(start as int, i + 1) =~= fb.subrange(start as int, i as int).push(fb[i as int]));
        i = i + 1;
    }
    assert(fb.subrange(start as int, fb.len() as int) =~= fb.skip(start as int));
    r
}

/// The deterministic, LLM-free resolver: one entry point over the five
/// stages. Every decision is a pure function of [`ResolveArgs`].
#[derive(Debug, Default)]
pub struct Resolver {
    context_selector: ContextSelector,
    model_selector: ModelSelector,
    normalizer: TaskNormalizer,
    policy_matcher: PolicyMatcher,
}

impl Resolver {
    /// Resolves one turn into its deterministic [`ResolvedTurn`] plan.
    ///
    /// Runs the five stages in order: normalize the task, match the routing
    /// policy, build the context candidate set, select a usable model under
    /// the candidate marks, then finalize the context to that model's window.
    /// The turn is restricted to local models when any candidate is
    /// restricted from remote providers or when the caller set `local_only`.
    /// The required context sizes the `estimated_tokens` model selection fits
    /// against.
    ///
    /// Fails with [`ResolverError::Routing`] when no route matches and the
    /// policy has no default, [`ResolverError::Model`] when no usable model
    /// can serve the route, and [`ResolverError::Context`] when the required
    /// context does not fit the chosen model.
    pub fn resolve(&self, args: ResolveArgs<'_>) -> (r: Result<ResolvedTurn, ResolverError>)
        requires
            material_tokens(*args.recalled, *args.attachments, *args.workspace) <= u64::MAX,
        ensures
            is_resolution(r, args),
    {
        // 1. Normalize the request into a classified, signal-bearing task.
        let task = self.normalizer.normalize(args.input, args.workspace, &args.attachments.invoked_skills, args.classification);
        assert(is_normalized(task, *args.input, *args.workspace, args.attachments.invoked_skills@, *args.classification));

        // 2. Match the routing policy to pick exactly one route.
        let route = match self.policy_matcher.match_policy(&task, args.routing, args.input.explicit_model.as_ref()) {
            Ok(route) => route,
            Err(e) => {
                return Err(ResolverError::Routing(e));
            },
        };
        assert(is_route_for(route, task, *args.routing, args.input.explicit_model));

        // 3. Build the candidate set; its marks constrain model selection.
        let built = self.context_selector.build_candidates(&route, args.recalled, args.attachments, args.workspace, args.privacy);
        proof {
            lemma_raw_total(route, *args.recalled, *args.attachments, *args.workspace, *args.privacy);
            lemma_dedupe_total(raw_candidates(route, *args.recalled, *args.attachments, *args.workspace, *args.privacy));
            lemma_required_total(built.candidates.deep_view());
        }
        let restricted = built.has_restricted_content() || args.local_only;
        let required = built.required_tokens();
        let requirements = RoutingRequirements {
            streaming: args.requirements.streaming,
            tools: args.requirements.tools,
            json_output: args.requirements.json_output,
            system_prompt: args.requirements.system_prompt,
            images: args.requirements.images,
            reasoning: args.requirements.reasoning,
            memory: args.requirements.memory,
            estimated_tokens: Some(required),
        };
        let ghost view = built.candidates.deep_view();
        assert(requirements == turn_requirements(args.requirements, view));

        // 4. Select a usable model under the route and the candidate marks.
        let selected = self.model_selector.select(&route, &requirements, args.catalog, args.credentialed, restricted);
        let ghost selection = selected;
        assert(view == spec_dedupe(raw_candidates(route, *args.recalled, *args.attachments, *args.workspace, *args.privacy)));
        assert(restricted == turn_restricted(view, args.local_only));
        assert(is_selection(selection, route, turn_requirements(args.requirements, view), args.catalog@, args.credentialed@, turn_restricted(view, args.local_only)));
        let chosen = match selected {
            Ok(chosen) => chosen,
            Err(e) => {
                assert(is_routed_resolution(Err(ResolverError::Model(e)), args, task, route));
                return Err(ResolverError::Model(e));
            },
        };

        let routing = RoutingDecision {
            intent: route.intent,
            provider: chosen.model.provider.duplicate(),
            model: chosen.model.model.clone(),
            matched_rule: match route.matched_rule() {
                Some(rule) => Some(rule.name.clone()),
                None => None,
            },
            fallback_used: chosen.fallback_used,
            override_used: route.override_used(),
            reason: route.reason.clone(),
        };
        let fallbacks = remaining_fallbacks(&route, &chosen.model.reference());
        let required_permissions = match route.matched_rule() {
            Some(rule) => rule.required_permissions.duplicate(),
            None => ToolsConfig::empty(),
        };

        // 5. Finalize the context to the chosen model's window.
        let context = match self.context_selector.finalize(built, &chosen.model) {
            Ok(context) => context,
            Err(e) => {
                let r = Err(ResolverError::Context(e));
                assert(is_routed_resolution(r, args, task, route));
                return r;
            },
        };
        assert(required_total(view) <= spec_budget(chosen.model));
        assert(routing == spec_routing_decision(route, chosen));
        assert(fallbacks@ == after_first(candidates(route), described(chosen.model)));
        assert(permissions_view(required_permissions) == route_permissions(route));
        assert(is_finalized(context, view, chosen.model));
        let r = Ok(ResolvedTurn {
            classification: task.classification,
            routing,
            model: chosen.model,
            fallbacks,
            context,
            required_permissions,
        });
        assert(is_routed_resolution(r, args, task, route));
        r
    }
}

} // verus!
