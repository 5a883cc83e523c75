use smista_router::model_selector::{ModelSelector, ModelSelectorError};
use smista_router::policy_matcher::{RouteMatch, RouteSource};
use smista_router::types::{
    DefaultRoute, ModelAuthRequirement, ModelCapabilities, ModelDescriptor, ModelReference, Provider,
    RoutingRequirements, RoutingRule, TaskIntent, ToolsConfig,
};

fn reference(value: &str) -> ModelReference {
    let (provider, name) = value.split_once('/').expect("provider/model");
    let provider = Provider::from_canonical(provider).unwrap_or(Provider::OpenAICompatible(provider.to_string()));
    ModelReference { provider, model: name.to_string() }
}

/// A descriptor for `value`, with the given locality, key requirement,
/// capabilities and context window.
fn descriptor(value: &str, local: bool, requires_key: bool, capabilities: ModelCapabilities, max_context_tokens: u32) -> ModelDescriptor {
    let reference = reference(value);
    ModelDescriptor {
        provider: reference.provider,
        model: reference.model,
        display_name: None,
        local,
        auth: if requires_key { ModelAuthRequirement::ApiKey } else { ModelAuthRequirement::Keyless },
        capabilities,
        max_context_tokens,
        max_output_tokens: None,
    }
}

/// The set of providers a credential was supplied for, from their names.
fn credentialed(providers: &[&str]) -> Vec<Provider> {
    providers.iter().map(|p| Provider::from_canonical(p).expect("valid provider")).collect()
}

fn default_route(model: &str, fallbacks: &[&str]) -> DefaultRoute {
    DefaultRoute { model: reference(model), fallbacks: fallbacks.iter().map(|value| reference(value)).collect() }
}

fn route_match(source: RouteSource<'_>) -> RouteMatch<'_> {
    RouteMatch { intent: TaskIntent::Chat, source, reason: "test".to_string() }
}

fn tools() -> ModelCapabilities {
    ModelCapabilities { tools: true, ..Default::default() }
}

fn rule(name: &str, local_only: bool, gate: Option<ModelCapabilities>, model: &str, fallbacks: &[&str]) -> RoutingRule {
    RoutingRule {
        name: name.to_string(),
        priority: 100,
        intent: None,
        skill: None,
        paths: Vec::new(),
        model: reference(model),
        fallbacks: fallbacks.iter().map(|value| reference(value)).collect(),
        local_only,
        requires_capabilities: gate,
        required_permissions: ToolsConfig { permissions: Vec::new() },
    }
}

#[test]
fn should_select_primary_when_available_and_capable() {
    let route = default_route("openai/mini", &[]);
    let catalog = vec![descriptor("openai/mini", false, true, ModelCapabilities::default(), 200_000)];

    let selection = ModelSelector
        .select(
            &route_match(RouteSource::Default { route: &route }),
            &RoutingRequirements::default(),
            &catalog,
            &credentialed(&["openai"]),
            false,
        )
        .expect("primary is usable");

    assert_eq!(selection.model.reference().text(), "openai/mini");
    assert!(!selection.fallback_used);
}

#[test]
fn should_fall_back_when_primary_has_no_credential() {
    let route = default_route("anthropic/sonnet", &["openai/mini"]);
    let catalog = vec![
        descriptor("anthropic/sonnet", false, true, ModelCapabilities::default(), 200_000),
        descriptor("openai/mini", false, true, ModelCapabilities::default(), 200_000),
    ];

    // Only the fallback's provider has a credential.
    let selection = ModelSelector
        .select(
            &route_match(RouteSource::Default { route: &route }),
            &RoutingRequirements::default(),
            &catalog,
            &credentialed(&["openai"]),
            false,
        )
        .expect("the fallback is usable");

    assert_eq!(selection.model.reference().text(), "openai/mini");
    assert!(selection.fallback_used);
}

#[test]
fn should_fall_back_when_primary_is_unknown_to_the_catalog() {
    let route = default_route("anthropic/sonnet", &["openai/mini"]);
    // The router does not know the primary model's facts.
    let catalog = vec![descriptor("openai/mini", false, true, ModelCapabilities::default(), 200_000)];

    let selection = ModelSelector
        .select(
            &route_match(RouteSource::Default { route: &route }),
            &RoutingRequirements::default(),
            &catalog,
            &credentialed(&["anthropic", "openai"]),
            false,
        )
        .expect("the known fallback is usable");

    assert_eq!(selection.model.reference().text(), "openai/mini");
    assert!(selection.fallback_used);
}

#[test]
fn should_fall_back_when_primary_lacks_a_required_capability() {
    let route = default_route("openai/mini", &["anthropic/sonnet"]);
    let catalog = vec![
        // The primary cannot call tools; the fallback can.
        descriptor("openai/mini", false, true, ModelCapabilities::default(), 200_000),
        descriptor("anthropic/sonnet", false, true, tools(), 200_000),
    ];
    let requirements = RoutingRequirements { tools: true, ..Default::default() };

    let selection = ModelSelector
        .select(
            &route_match(RouteSource::Default { route: &route }),
            &requirements,
            &catalog,
            &credentialed(&["openai", "anthropic"]),
            false,
        )
        .expect("the fallback can call tools");

    assert_eq!(selection.model.reference().text(), "anthropic/sonnet");
    assert!(selection.fallback_used);
}

#[test]
fn should_fall_back_when_primary_context_window_is_too_small() {
    let route = default_route("openai/small", &["openai/large"]);
    let catalog = vec![
        descriptor("openai/small", false, true, ModelCapabilities::default(), 1_000),
        descriptor("openai/large", false, true, ModelCapabilities::default(), 200_000),
    ];
    let requirements = RoutingRequirements { estimated_tokens: Some(50_000), ..Default::default() };

    let selection = ModelSelector
        .select(
            &route_match(RouteSource::Default { route: &route }),
            &requirements,
            &catalog,
            &credentialed(&["openai"]),
            false,
        )
        .expect("the larger window fits");

    assert_eq!(selection.model.reference().text(), "openai/large");
    assert!(selection.fallback_used);
}

#[test]
fn should_exhaust_when_no_candidate_is_usable() {
    let route = default_route("anthropic/sonnet", &["openai/mini"]);
    let catalog = vec![
        descriptor("anthropic/sonnet", false, true, ModelCapabilities::default(), 200_000),
        descriptor("openai/mini", false, true, ModelCapabilities::default(), 200_000),
    ];

    // No provider has a credential, so neither key-needing model is usable.
    let error = ModelSelector
        .select(
            &route_match(RouteSource::Default { route: &route }),
            &RoutingRequirements::default(),
            &catalog,
            &credentialed(&[]),
            false,
        )
        .expect_err("no candidate is usable");

    assert!(matches!(error, ModelSelectorError::FallbackExhausted));
}

#[test]
fn should_foreclose_remote_models_when_context_is_restricted() {
    let route = default_route("anthropic/sonnet", &["ollama/llama3"]);
    let catalog = vec![
        descriptor("anthropic/sonnet", false, true, ModelCapabilities::default(), 200_000),
        descriptor("ollama/llama3", true, false, ModelCapabilities::default(), 32_000),
    ];

    // The remote primary is foreclosed; only the local fallback is eligible.
    let selection = ModelSelector
        .select(
            &route_match(RouteSource::Default { route: &route }),
            &RoutingRequirements::default(),
            &catalog,
            &credentialed(&["anthropic"]),
            true,
        )
        .expect("the local fallback serves restricted content");

    assert_eq!(selection.model.reference().text(), "ollama/llama3");
    assert!(selection.fallback_used);
}

#[test]
fn should_fail_when_restricted_context_has_no_eligible_local_model() {
    let route = default_route("anthropic/sonnet", &["openai/mini"]);
    let catalog = vec![
        descriptor("anthropic/sonnet", false, true, ModelCapabilities::default(), 200_000),
        descriptor("openai/mini", false, true, ModelCapabilities::default(), 200_000),
    ];

    let error = ModelSelector
        .select(
            &route_match(RouteSource::Default { route: &route }),
            &RoutingRequirements::default(),
            &catalog,
            &credentialed(&["anthropic", "openai"]),
            true,
        )
        .expect_err("every candidate is remote");

    assert!(matches!(error, ModelSelectorError::NoLocalModel));
}

#[test]
fn should_refuse_a_remote_override_on_restricted_content() {
    let pinned = reference("anthropic/sonnet");
    let catalog = vec![descriptor("anthropic/sonnet", false, true, ModelCapabilities::default(), 200_000)];

    let error = ModelSelector
        .select(
            &route_match(RouteSource::Override { model: &pinned }),
            &RoutingRequirements::default(),
            &catalog,
            &credentialed(&["anthropic"]),
            true,
        )
        .expect_err("a remote override on restricted content is refused");

    match error {
        ModelSelectorError::OverrideNotAllowed(model) => assert_eq!(model.text(), pinned.text()),
        other => panic!("unexpected error {other:?}"),
    }
}

#[test]
fn should_use_an_available_override_without_fallback() {
    let pinned = reference("anthropic/sonnet");
    let catalog = vec![descriptor("anthropic/sonnet", false, true, ModelCapabilities::default(), 200_000)];

    let selection = ModelSelector
        .select(
            &route_match(RouteSource::Override { model: &pinned }),
            &RoutingRequirements::default(),
            &catalog,
            &credentialed(&["anthropic"]),
            false,
        )
        .expect("the pinned model is usable");

    assert_eq!(selection.model.reference().text(), pinned.text());
    assert!(!selection.fallback_used);
}

#[test]
fn should_keep_a_local_only_rule_fallback_chain_local() {
    // A local_only rule whose local primary is unknown to the router and
    // whose only fallback is remote: the remote fallback is foreclosed, so
    // selection fails rather than reaching the cloud.
    let rule = rule("secrets stay local", true, None, "ollama/llama3", &["anthropic/sonnet"]);
    // Only the remote fallback is in the catalog.
    let catalog = vec![descriptor("anthropic/sonnet", false, true, ModelCapabilities::default(), 200_000)];

    let error = ModelSelector
        .select(
            &route_match(RouteSource::Rule { index: 0, rule: &rule }),
            &RoutingRequirements::default(),
            &catalog,
            &credentialed(&["anthropic"]),
            false,
        )
        .expect_err("the remote fallback is foreclosed by local_only");

    assert!(matches!(error, ModelSelectorError::NoLocalModel));
}

#[test]
fn should_union_the_rule_capability_gate_into_the_requirements() {
    // The rule gates on tools; the task itself needs nothing. A primary that
    // cannot call tools is rejected by the rule, falling back to one that can.
    let rule = rule("needs tools", false, Some(tools()), "openai/mini", &["anthropic/sonnet"]);
    let catalog = vec![
        descriptor("openai/mini", false, true, ModelCapabilities::default(), 200_000),
        descriptor("anthropic/sonnet", false, true, tools(), 200_000),
    ];

    let selection = ModelSelector
        .select(
            &route_match(RouteSource::Rule { index: 0, rule: &rule }),
            &RoutingRequirements::default(),
            &catalog,
            &credentialed(&["openai", "anthropic"]),
            false,
        )
        .expect("the fallback satisfies the rule");

    assert_eq!(selection.model.reference().text(), "anthropic/sonnet");
    assert!(selection.fallback_used);
    // The rule added the tools capability the task did not ask for.
    assert!(selection.model.capabilities.tools);
}

#[test]
fn keyless_local_models_need_no_credential() {
    let route = default_route("ollama/llama3", &[]);
    let catalog = vec![descriptor("ollama/llama3", true, false, ModelCapabilities::default(), 8_000)];

    let selection = ModelSelector
        .select(
            &route_match(RouteSource::Default { route: &route }),
            &RoutingRequirements::default(),
            &catalog,
            &credentialed(&[]),
            true,
        )
        .expect("a keyless local model is always usable");

    assert_eq!(selection.model.reference().text(), "ollama/llama3");
    assert!(!selection.fallback_used);
}

#[test]
fn the_first_catalog_entry_for_a_reference_wins() {
    let route = default_route("ollama/llama3", &[]);
    let catalog = vec![
        descriptor("ollama/llama3", true, false, ModelCapabilities::default(), 8_000),
        descriptor("ollama/llama3", true, false, tools(), 64_000),
    ];

    let selection = ModelSelector
        .select(
            &route_match(RouteSource::Default { route: &route }),
            &RoutingRequirements::default(),
            &catalog,
            &credentialed(&[]),
            false,
        )
        .expect("usable");

    assert_eq!(selection.model.max_context_tokens, 8_000);
}
