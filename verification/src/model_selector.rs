//! Model selection: the resolver's deterministic, LLM-free model stage.
//!
//! [`ModelSelector`] turns a [`RouteMatch`] into a concrete, usable
//! [`ModelDescriptor`]. It resolves the route's model against the router's
//! known model facts and the providers a credential was supplied for, checks
//! the model is available and can serve the task, and otherwise walks the
//! route's fallback chain in order. Privacy overrides the route: when the turn
//! is restricted from remote providers, only local models are eligible.

use vstd::prelude::*;
use crate::policy_matcher::{route_fallbacks, route_is_override, route_model, route_rule, RouteMatch};
use crate::types::{
    provider_id, reference_id, descriptor_reference, spec_can_handle,
    ModelAuthRequirement, ModelDescriptor, ModelReference, Provider, RoutingRequirements,
    RoutingRule,
};

verus! {

/// An error returned when no usable model can serve a turn.
#[derive(Debug)]
pub enum ModelSelectorError {
    /// The primary model and every configured fallback were unusable.
    FallbackExhausted,
    /// The turn is restricted to local models, but none can serve it.
    NoLocalModel,
    /// An explicit override pinned a remote model on restricted content.
    OverrideNotAllowed(ModelReference),
}

/// The deterministic outcome of model selection for a turn.
#[derive(Debug)]
pub struct ModelSelection {
    /// The model the turn should be served by.
    pub model: ModelDescriptor,
    /// Whether a fallback model, rather than the route's primary, was chosen.
    pub fallback_used: bool,
}

/// Whether catalog entry `i` is the first that describes `reference`.
pub open spec fn is_catalog_entry(catalog: Seq<ModelDescriptor>, reference: ModelReference, i: int) -> bool {
    &&& 0 <= i < catalog.len()
    &&& descriptor_reference(catalog[i]) == reference_id(reference)
    &&& forall|j: int| 0 <= j < i ==> descriptor_reference(#[trigger] catalog[j]) != reference_id(reference)
}

/// Whether the catalog describes `reference`.
pub open spec fn in_catalog(catalog: Seq<ModelDescriptor>, reference: ModelReference) -> bool {
    exists|i: int| 0 <= i < catalog.len() && descriptor_reference(#[trigger] catalog[i]) == reference_id(reference)
}

/// The facts the catalog holds for `reference`, if any (its first entry).
pub open spec fn catalog_lookup(catalog: Seq<ModelDescriptor>, reference: ModelReference) -> Option<ModelDescriptor> {
    if in_catalog(catalog, reference) {
        Some(catalog[choose|i: int| is_catalog_entry(catalog, reference, i)])
    } else {
        None
    }
}

/// Whether a credential was supplied for `provider`.
pub open spec fn is_credentialed(credentialed: Seq<Provider>, provider: Provider) -> bool {
    exists|k: int| 0 <= k < credentialed.len() && provider_id(#[trigger] credentialed[k]) == provider_id(provider)
}

/// The task's requirements unioned with the matched rule's capability gate.
pub open spec fn spec_effective_requirements(base: RoutingRequirements, rule: Option<RoutingRule>) -> RoutingRequirements {
    match rule {
        Some(r) => match r.requires_capabilities {
            Some(gate) => RoutingRequirements {
                streaming: base.streaming || gate.streaming,
                tools: base.tools || gate.tools,
                json_output: base.json_output || gate.json_output,
                system_prompt: base.system_prompt || gate.system_prompt,
                images: base.images || gate.images,
                reasoning: base.reasoning || gate.reasoning,
                memory: base.memory || gate.memory,
                estimated_tokens: base.estimated_tokens,
            },
            None => base,
        },
        None => base,
    }
}

/// Whether the turn may only be served by a local model: the context is
/// restricted, or the matched rule is local-only.
pub open spec fn spec_local_required(route: RouteMatch, restricted_context: bool) -> bool {
    restricted_context || (route_rule(route) matches Some(rule) && rule.local_only)
}

/// The route's candidates: the primary model, then its fallback chain.
pub open spec fn candidates(route: RouteMatch) -> Seq<ModelReference> {
    seq![route_model(route)] + route_fallbacks(route)
}

/// Whether the model `reference` is usable for the turn: its facts are known,
/// any required credential was supplied, it is local when locality is
/// required, and it can serve the requirements.
pub open spec fn spec_usable(
    reference: ModelReference,
    catalog: Seq<ModelDescriptor>,
    credentialed: Seq<Provider>,
    requirements: RoutingRequirements,
    local_required: bool,
) -> bool {
    match catalog_lookup(catalog, reference) {
        Some(d) => {
            &&& (d.auth == ModelAuthRequirement::ApiKey ==> is_credentialed(credentialed, reference.provider))
            &&& (local_required ==> d.local)
            &&& spec_can_handle(d, requirements)
        },
        None => false,
    }
}

/// Whether candidate `i` of the route is usable for the turn.
pub open spec fn candidate_usable(
    route: RouteMatch,
    i: int,
    catalog: Seq<ModelDescriptor>,
    credentialed: Seq<Provider>,
    requirements: RoutingRequirements,
    restricted_context: bool,
) -> bool {
    spec_usable(
        candidates(route)[i],
        catalog,
        credentialed,
        spec_effective_requirements(requirements, route_rule(route)),
        spec_local_required(route, restricted_context),
    )
}

/// Whether the override on this route pins a remote model on restricted
/// content.
pub open spec fn override_refused(route: RouteMatch, catalog: Seq<ModelDescriptor>, restricted_context: bool) -> bool {
    &&& route_is_override(route)
    &&& restricted_context
    &&& catalog_lookup(catalog, route_model(route)) matches Some(d) && !d.local
}

/// Whether `r` is the outcome of selecting a model for `route`.
///
/// A remote override on restricted content is refused. Otherwise the first
/// usable candidate is chosen, reporting whether it was a fallback; with none
/// usable, selection fails with `NoLocalModel` when only local models were
/// eligible and with `FallbackExhausted` otherwise.
pub open spec fn is_selection(
    r: Result<ModelSelection, ModelSelectorError>,
    route: RouteMatch,
    requirements: RoutingRequirements,
    catalog: Seq<ModelDescriptor>,
    credentialed: Seq<Provider>,
    restricted_context: bool,
) -> bool {
    if override_refused(route, catalog, restricted_context) {
        r matches Err(ModelSelectorError::OverrideNotAllowed(model)) && model == route_model(route)
    } else {
        match r {
            Ok(selection) => exists|i: int| {
                &&& 0 <= i < candidates(route).len()
                &&& candidate_usable(route, i, catalog, credentialed, requirements, restricted_context)
                &&& (forall|j: int| 0 <= j < i ==> !#[trigger] candidate_usable(route, j, catalog, credentialed, requirements, restricted_context))
                &&& catalog_lookup(catalog, candidates(route)[i]) == Some(selection.model)
                &&& selection.fallback_used == (i > 0)
            },
            Err(e) => {
                &&& forall|j: int| 0 <= j < candidates(route).len() ==> !#[trigger] candidate_usable(route, j, catalog, credentialed, requirements, restricted_context)
                &&& if spec_local_required(route, restricted_context) {
                    e is NoLocalModel
                } else {
                    e is FallbackExhausted
                }
            },
        }
    }
}

/// Finds the first catalog entry that describes `reference`.
pub fn find_model(catalog: &Vec<ModelDescriptor>, reference: &ModelReference) -> (r: Option<usize>)
    ensures
        match r {
            Some(i) => is_catalog_entry(catalog@, *reference, i as int) && catalog_lookup(catalog@, *reference) == Some(catalog@[i as int]),
            None => catalog_lookup(catalog@, *reference) is None,
        },
{
    let mut i: usize = 0;
    while i < catalog.len()
        invariant
            i <= catalog.len(),
            forall|j: int| 0 <= j < i ==> descriptor_reference(#[trigger] catalog@[j]) != reference_id(*reference),
        decreases catalog.len() - i,
    {
        if catalog[i].provider.same(&reference.provider) && catalog[i].model == reference.model {
            proof {
                assert(is_catalog_entry(catalog@, *reference, i as int));
                let k = choose|k: int| is_catalog_entry(catalog@, *reference, k);
                if k < i {
                    assert(descriptor_reference(catalog@[k]) != reference_id(*reference));
                } else if i < k {
                    assert(descriptor_reference(catalog@[i as int]) != reference_id(*reference));
                }
            }
            return Some(i);
        }
        i = i + 1;
    }
    None
}

/// Whether a credential was supplied for `provider`.
fn has_credential(credentialed: &Vec<Provider>, provider: &Provider) -> (r: bool)
    ensures
        r == is_credentialed(credentialed@, *provider),
{
    let mut k: usize = 0;
    while k < credentialed.len()
        invariant
            k <= credentialed.len(),
            forall|j: int| 0 <= j < k ==> provider_id(#[trigger] credentialed@[j]) != provider_id(*provider),
        decreases credentialed.len() - k,
    {
        if credentialed[k].same(provider) {
            return true;
        }
        k = k + 1;
    }
    false
}

/// Returns the catalog index of `reference` when it can serve the turn.
///
/// A candidate is usable when its facts are known in `catalog`, any required
/// credential is present in `credentialed`, it is local when locality is
/// required, and it satisfies `requirements`.
pub fn usable(
    reference: &ModelReference,
    catalog: &Vec<ModelDescriptor>,
    credentialed: &Vec<Provider>,
    requirements: &RoutingRequirements,
    local_required: bool,
) -> (r: Option<usize>)
    ensures
        match r {
            Some(i) => spec_usable(*reference, catalog@, credentialed@, *requirements, local_required)
                && catalog_lookup(catalog@, *reference) == Some(catalog@[i as int]) && i < catalog.len(),
            None => !spec_usable(*reference, catalog@, credentialed@, *requirements, local_required),
        },
{
    let index = match find_model(catalog, reference) {
        Some(i) => i,
        None => return None,
    };
    let descriptor = &catalog[index];
    if descriptor.requires_api_key() && !has_credential(credentialed, &reference.provider) {
        return None;
    }
    if local_required && !descriptor.local {
        return None;
    }
    if !descriptor.can_handle(requirements) {
        return None;
    }
    Some(index)
}

/// Unions the task's requirements with the matched rule's capability gate.
///
/// Every capability the rule flags is added to what the task already needs,
/// so the chosen model must satisfy both.
pub fn effective_requirements(base: &RoutingRequirements, rule: Option<&RoutingRule>) -> (r: RoutingRequirements)
    ensures
        r == spec_effective_requirements(*base, match rule { Some(x) => Some(*x), None => None }),
{
    let mut requirements = *base;
    match rule {
        Some(rule) => match rule.requires_capabilities {
            Some(gate) => {
                requirements.streaming = requirements.streaming || gate.streaming;
                requirements.tools = requirements.tools || gate.tools;
                requirements.json_output = requirements.json_output || gate.json_output;
                requirements.system_prompt = requirements.system_prompt || gate.system_prompt;
                requirements.images = requirements.images || gate.images;
                requirements.reasoning = requirements.reasoning || gate.reasoning;
                requirements.memory = requirements.memory || gate.memory;
            },
            None => {},
        },
        None => {},
    }
    requirements
}

/// Deterministic, LLM-free selector of a usable model for a matched route.
#[derive(Debug, Default, Clone, Copy)]
pub struct ModelSelector;

impl ModelSelector {
    /// Resolves the matched route to a usable model.
    ///
    /// The candidates are the route's primary model followed by its fallback
    /// chain, in order; the first usable one is chosen. When
    /// `restricted_context` is set, or the matched rule is `local_only`, only
    /// local models are eligible, and a remote override on restricted content
    /// is refused outright rather than skipped.
    pub fn select(
        &self,
        route: &RouteMatch<'_>,
        requirements: &RoutingRequirements,
        catalog: &Vec<ModelDescriptor>,
        credentialed: &Vec<Provider>,
        restricted_context: bool,
    ) -> (r: Result<ModelSelection, ModelSelectorError>)
        ensures
            is_selection(r, *route, *requirements, catalog@, credentialed@, restricted_context),
    {
        let rule = route.matched_rule();
        let local_required = restricted_context || match rule {
            Some(rule) => rule.local_only,
            None => false,
        };
        let effective = effective_requirements(requirements, rule);
        let primary = route.model();
        let fallbacks = route.fallbacks();
        if route.override_used() && restricted_context {
            match find_model(catalog, primary) {
                Some(i) => {
                    if !catalog[i].local {
                        return Err(ModelSelectorError::OverrideNotAllowed(primary.duplicate()));
                    }
                },
                None => {},
            }
        }
        let ghost chain = candidates(*route);
        assert(chain[0] == *primary);
        assert(effective == spec_effective_requirements(*requirements, route_rule(*route)));
        assert(local_required == spec_local_required(*route, restricted_context));
        assert(!override_refused(*route, catalog@, restricted_context));
        match usable(primary, catalog, credentialed, &effective, local_required) {
            Some(i) => {
                assert(candidate_usable(*route, 0, catalog@, credentialed@, *requirements, restricted_context));
                return Ok(ModelSelection { model: catalog[i].duplicate(), fallback_used: false });
            },
            None => {},
        }
        let mut k: usize = 0;
        while k < fallbacks.len()
            invariant
                k <= fallbacks.len(),
                fallbacks@ == route_fallbacks(*route),
                chain == candidates(*route),
                effective == spec_effective_requirements(*requirements, route_rule(*route)),
                local_required == crate::model_selector::spec_local_required(*route, restricted_context),
                !override_refused(*route, catalog@, restricted_context),
                forall|j: int| 0 <= j < k + 1 ==> !#[trigger] candidate_usable(*route, j, catalog@, credentialed@, *requirements, restricted_context),
            decreases fallbacks.len() - k,
        {
            assert(chain[k + 1] == fallbacks@[k as int]);
            match usable(&fallbacks[k], catalog, credentialed, &effective, local_required) {
                Some(i) => {
                    let selection = ModelSelection { model: catalog[i].duplicate(), fallback_used: true };
                    assert(candidate_usable(*route, k + 1, catalog@, credentialed@, *requirements, restricted_context));
                    return Ok(selection);
                },
                None => {},
            }
            k = k + 1;
        }
        if local_required {
            Err(ModelSelectorError::NoLocalModel)
        } else {
            Err(ModelSelectorError::FallbackExhausted)
        }
    }
}

} // verus!
