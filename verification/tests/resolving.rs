use smista_router::context::{CandidateKind, RecalledContext};
use smista_router::resolver::{
    remaining_fallbacks, Attachments, ContextFile, ResolveArgs, ResolvedTurn, Resolver, ResolverError, TaskInput, Workspace,
};
use smista_router::policy_matcher::{RouteMatch, RouteSource};
use smista_router::types::{
    ApiErrorCode, ClassificationConfig, ClassificationRule, DefaultRoute, ModelAuthRequirement, ModelCapabilities,
    ModelDescriptor, ModelReference, PermissionMode, PrivacyPolicy, Provider, RoutingPolicy, RoutingRequirements, RoutingRule,
    TaskIntent, ToolPermission, ToolsConfig,
};

fn reference(value: &str) -> ModelReference {
    let (provider, name) = value.split_once('/').expect("provider/model");
    let provider = Provider::from_canonical(provider).unwrap_or(Provider::OpenAICompatible(provider.to_string()));
    ModelReference { provider, model: name.to_string() }
}

fn texts(references: &[ModelReference]) -> Vec<String> {
    references.iter().map(|r| r.text()).collect()
}

/// A descriptor for `value`, with the given locality, key requirement and
/// context window. Capabilities are the default (none required).
fn descriptor(value: &str, local: bool, requires_key: bool, window: u32) -> ModelDescriptor {
    descriptor_with_reply(value, local, requires_key, window, None)
}

/// A descriptor with an explicit `max_output_tokens` reply reserve.
fn descriptor_with_reply(value: &str, local: bool, requires_key: bool, window: u32, reply: Option<u32>) -> ModelDescriptor {
    let reference = reference(value);
    ModelDescriptor {
        provider: reference.provider,
        model: reference.model,
        display_name: None,
        local,
        auth: if requires_key { ModelAuthRequirement::ApiKey } else { ModelAuthRequirement::Keyless },
        capabilities: ModelCapabilities::default(),
        max_context_tokens: window,
        max_output_tokens: reply,
    }
}

fn credentialed(providers: &[&str]) -> Vec<Provider> {
    providers.iter().map(|p| Provider::from_canonical(p).expect("valid provider")).collect()
}

fn default_route(model: &str, fallbacks: &[&str]) -> Option<DefaultRoute> {
    Some(DefaultRoute { model: reference(model), fallbacks: fallbacks.iter().map(|f| reference(f)).collect() })
}

fn rule(name: &str, intent: Option<TaskIntent>, paths: &[&str], model: &str, permissions: ToolsConfig) -> RoutingRule {
    RoutingRule {
        name: name.to_string(),
        priority: 100,
        intent,
        skill: None,
        paths: paths.iter().map(|p| p.to_string()).collect(),
        model: reference(model),
        fallbacks: Vec::new(),
        local_only: false,
        requires_capabilities: None,
        required_permissions: permissions,
    }
}

fn no_permissions() -> ToolsConfig {
    ToolsConfig { permissions: Vec::new() }
}

fn privacy(restricted: &[&str]) -> PrivacyPolicy {
    PrivacyPolicy { restricted_paths: restricted.iter().map(|p| p.to_string()).collect() }
}

fn workspace() -> Workspace {
    Workspace { root: "/repo".to_string(), git_branch: None, git_diff: None, referenced_paths: Vec::new(), active_file: None }
}

fn input(text: &str) -> TaskInput {
    TaskInput { text: text.to_string(), command: None, explicit_model: None }
}

fn file(path: &str, content: &str, required: bool) -> ContextFile {
    ContextFile { path: path.to_string(), content: content.to_string(), required }
}

fn attachments(files: Vec<ContextFile>) -> Attachments {
    Attachments { files, instructions: Vec::new(), invoked_skills: Vec::new(), available_skills: Vec::new() }
}

fn recalled() -> RecalledContext {
    RecalledContext { messages: Vec::new(), user_memory: Vec::new(), context_memory: Vec::new() }
}

fn chat_default() -> ClassificationConfig {
    ClassificationConfig { default_intent: TaskIntent::Chat, rules: Vec::new() }
}

fn refactor_is_an_edit() -> ClassificationConfig {
    ClassificationConfig {
        default_intent: TaskIntent::Chat,
        rules: vec![ClassificationRule {
            intent: TaskIntent::Edit,
            priority: 100,
            keywords: vec!["refactor".to_string()],
            requires_any_context: Vec::new(),
        }],
    }
}

/// The owned inputs a resolve call borrows.
struct Inputs {
    input: TaskInput,
    workspace: Workspace,
    attachments: Attachments,
    recalled: RecalledContext,
    classification: ClassificationConfig,
    routing: RoutingPolicy,
    privacy: PrivacyPolicy,
    catalog: Vec<ModelDescriptor>,
    credentialed: Vec<Provider>,
    local_only: bool,
}

impl Inputs {
    fn args(&self) -> ResolveArgs<'_> {
        ResolveArgs {
            input: &self.input,
            workspace: &self.workspace,
            attachments: &self.attachments,
            recalled: &self.recalled,
            classification: &self.classification,
            routing: &self.routing,
            privacy: &self.privacy,
            requirements: RoutingRequirements::default(),
            catalog: &self.catalog,
            credentialed: &self.credentialed,
            local_only: self.local_only,
        }
    }

    fn resolve(&self) -> Result<ResolvedTurn, ResolverError> {
        Resolver::default().resolve(self.args())
    }
}

#[test]
fn should_resolve_a_default_route_to_its_primary_model() {
    let inputs = Inputs {
        input: input("hello"),
        workspace: workspace(),
        attachments: attachments(vec![file("src/main.rs", "fn main() {}", true)]),
        recalled: recalled(),
        classification: chat_default(),
        routing: RoutingPolicy { default: default_route("openai/mini", &["ollama/llama3"]), rules: Vec::new() },
        privacy: privacy(&[]),
        catalog: vec![descriptor("openai/mini", false, true, 200_000), descriptor("ollama/llama3", true, false, 32_000)],
        credentialed: credentialed(&["openai"]),
        local_only: false,
    };

    let plan = inputs.resolve().expect("resolves");

    assert_eq!(plan.model.reference().text(), "openai/mini");
    assert!(!plan.routing.fallback_used);
    assert!(!plan.routing.override_used);
    assert_eq!(plan.routing.matched_rule, None);
    assert!(matches!(plan.routing.provider, Provider::OpenAI));
    // The remaining fallback chain is everything after the chosen model.
    assert_eq!(texts(&plan.fallbacks), ["ollama/llama3"]);
}

#[test]
fn should_resolve_a_matched_rule_naming_it_in_the_routing_decision() {
    let inputs = Inputs {
        input: input("refactor the auth middleware"),
        workspace: Workspace { referenced_paths: vec!["src/auth/login.rs".to_string()], ..workspace() },
        attachments: attachments(vec![file("src/auth/login.rs", "fn login() {}", true)]),
        recalled: recalled(),
        classification: refactor_is_an_edit(),
        routing: RoutingPolicy {
            default: default_route("openai/mini", &[]),
            rules: vec![rule("auth edits use Sonnet", Some(TaskIntent::Edit), &["src/auth/**"], "anthropic/sonnet", no_permissions())],
        },
        privacy: privacy(&[]),
        catalog: vec![descriptor("anthropic/sonnet", false, true, 200_000)],
        credentialed: credentialed(&["anthropic"]),
        local_only: false,
    };

    let plan = inputs.resolve().expect("resolves");

    assert_eq!(plan.classification.intent, TaskIntent::Edit);
    assert_eq!(plan.routing.intent, TaskIntent::Edit);
    assert_eq!(plan.routing.matched_rule.as_deref(), Some("auth edits use Sonnet"));
    assert_eq!(plan.model.reference().text(), "anthropic/sonnet");
}

#[test]
fn should_honour_an_explicit_model_override_with_no_fallbacks() {
    let inputs = Inputs {
        input: TaskInput { explicit_model: Some(reference("anthropic/sonnet")), ..input("anything") },
        workspace: workspace(),
        attachments: attachments(Vec::new()),
        recalled: recalled(),
        classification: chat_default(),
        routing: RoutingPolicy {
            default: default_route("openai/mini", &[]),
            rules: vec![rule("edits", Some(TaskIntent::Edit), &[], "ollama/llama3", no_permissions())],
        },
        privacy: privacy(&[]),
        catalog: vec![descriptor("anthropic/sonnet", false, true, 200_000)],
        credentialed: credentialed(&["anthropic"]),
        local_only: false,
    };

    let plan = inputs.resolve().expect("resolves");

    assert!(plan.routing.override_used);
    assert_eq!(plan.model.reference().text(), "anthropic/sonnet");
    assert!(plan.fallbacks.is_empty());
}

#[test]
fn should_walk_to_a_fallback_when_the_primary_is_unusable() {
    let inputs = Inputs {
        input: input("hello"),
        workspace: workspace(),
        attachments: attachments(Vec::new()),
        recalled: recalled(),
        classification: chat_default(),
        routing: RoutingPolicy {
            default: default_route("anthropic/sonnet", &["openai/mini", "ollama/llama3"]),
            rules: Vec::new(),
        },
        privacy: privacy(&[]),
        catalog: vec![
            descriptor("anthropic/sonnet", false, true, 200_000),
            descriptor("openai/mini", false, true, 200_000),
            descriptor("ollama/llama3", true, false, 32_000),
        ],
        // Only the first fallback's provider has a credential.
        credentialed: credentialed(&["openai"]),
        local_only: false,
    };

    let plan = inputs.resolve().expect("resolves");

    assert!(plan.routing.fallback_used);
    assert_eq!(plan.model.reference().text(), "openai/mini");
    // The remaining chain is what comes after the chosen fallback.
    assert_eq!(texts(&plan.fallbacks), ["ollama/llama3"]);
}

#[test]
fn should_force_a_local_model_when_required_context_is_restricted() {
    let inputs = Inputs {
        input: input("hello"),
        workspace: workspace(),
        // A required, remote-restricted file forecloses the remote primary.
        attachments: attachments(vec![file(".env", "SECRET=1", true)]),
        recalled: recalled(),
        classification: chat_default(),
        routing: RoutingPolicy { default: default_route("anthropic/sonnet", &["ollama/llama3"]), rules: Vec::new() },
        privacy: privacy(&[".env"]),
        catalog: vec![descriptor("anthropic/sonnet", false, true, 200_000), descriptor("ollama/llama3", true, false, 32_000)],
        credentialed: credentialed(&["anthropic"]),
        local_only: false,
    };

    let plan = inputs.resolve().expect("resolves");

    assert_eq!(plan.model.reference().text(), "ollama/llama3");
    assert!(plan.model.local);
}

#[test]
fn should_force_a_local_model_when_discardable_context_is_restricted() {
    let inputs = Inputs {
        input: input("hello"),
        workspace: workspace(),
        // A discardable, remote-restricted file restricts the turn as well.
        attachments: attachments(vec![file(".env", "SECRET=1", false)]),
        recalled: recalled(),
        classification: chat_default(),
        routing: RoutingPolicy { default: default_route("anthropic/sonnet", &["ollama/llama3"]), rules: Vec::new() },
        privacy: privacy(&[".env"]),
        catalog: vec![descriptor("anthropic/sonnet", false, true, 200_000), descriptor("ollama/llama3", true, false, 32_000)],
        credentialed: credentialed(&["anthropic"]),
        local_only: false,
    };

    let plan = inputs.resolve().expect("resolves");

    assert_eq!(plan.model.reference().text(), "ollama/llama3");
    assert!(plan.model.local);
}

#[test]
fn should_force_a_local_model_when_the_caller_requires_local_only() {
    let inputs = Inputs {
        input: input("hello"),
        workspace: workspace(),
        attachments: attachments(Vec::new()),
        recalled: recalled(),
        classification: chat_default(),
        routing: RoutingPolicy { default: default_route("anthropic/sonnet", &["ollama/llama3"]), rules: Vec::new() },
        privacy: privacy(&[]),
        catalog: vec![descriptor("anthropic/sonnet", false, true, 200_000), descriptor("ollama/llama3", true, false, 32_000)],
        credentialed: credentialed(&["anthropic"]),
        local_only: true,
    };

    let plan = inputs.resolve().expect("resolves");

    assert_eq!(plan.model.reference().text(), "ollama/llama3");
}

#[test]
fn should_error_when_no_route_matches_and_there_is_no_default() {
    let inputs = Inputs {
        input: input("hello"),
        workspace: workspace(),
        attachments: attachments(Vec::new()),
        recalled: recalled(),
        classification: chat_default(),
        routing: RoutingPolicy { default: None, rules: vec![rule("auth", None, &["src/auth/**"], "ollama/llama3", no_permissions())] },
        privacy: privacy(&[]),
        catalog: vec![descriptor("ollama/llama3", true, false, 32_000)],
        credentialed: credentialed(&[]),
        local_only: false,
    };

    let error = inputs.resolve().expect_err("no route");

    assert!(matches!(error, ResolverError::Routing(_)));
    assert_eq!(error.api_code(), ApiErrorCode::NoRoute);
}

#[test]
fn should_carry_the_matched_rule_required_permissions_in_the_plan() {
    let ask_before_writing =
        ToolsConfig { permissions: vec![ToolPermission { tool: "file_write".to_string(), mode: PermissionMode::Ask }] };
    let inputs = Inputs {
        input: input("refactor the auth middleware"),
        workspace: Workspace { referenced_paths: vec!["src/auth/login.rs".to_string()], ..workspace() },
        attachments: attachments(vec![file("src/auth/login.rs", "fn login() {}", true)]),
        recalled: recalled(),
        classification: refactor_is_an_edit(),
        routing: RoutingPolicy {
            default: default_route("ollama/llama3", &[]),
            rules: vec![rule(
                "auth edits ask before writing",
                Some(TaskIntent::Edit),
                &["src/auth/**"],
                "ollama/llama3",
                ask_before_writing,
            )],
        },
        privacy: privacy(&[]),
        catalog: vec![descriptor("ollama/llama3", true, false, 200_000)],
        credentialed: credentialed(&[]),
        local_only: false,
    };

    let plan = inputs.resolve().expect("resolves");

    assert_eq!(plan.required_permissions.mode_for("file_write"), Some(PermissionMode::Ask));
}

#[test]
fn should_leave_required_permissions_empty_for_the_default_route() {
    let inputs = Inputs {
        input: input("hello"),
        workspace: workspace(),
        attachments: attachments(Vec::new()),
        recalled: recalled(),
        classification: chat_default(),
        routing: RoutingPolicy { default: default_route("ollama/llama3", &[]), rules: Vec::new() },
        privacy: privacy(&[]),
        catalog: vec![descriptor("ollama/llama3", true, false, 32_000)],
        credentialed: credentialed(&[]),
        local_only: false,
    };

    let plan = inputs.resolve().expect("resolves");

    assert!(plan.required_permissions.permissions.is_empty());
}

#[test]
fn should_map_a_forbidden_override_to_override_not_allowed() {
    let inputs = Inputs {
        // A remote override pinned on remote-restricted content is refused.
        input: TaskInput { explicit_model: Some(reference("anthropic/sonnet")), ..input("hello") },
        workspace: workspace(),
        attachments: attachments(vec![file(".env", "SECRET=1", true)]),
        recalled: recalled(),
        classification: chat_default(),
        routing: RoutingPolicy { default: default_route("ollama/llama3", &[]), rules: Vec::new() },
        privacy: privacy(&[".env"]),
        catalog: vec![descriptor("anthropic/sonnet", false, true, 200_000)],
        credentialed: credentialed(&["anthropic"]),
        local_only: false,
    };

    let error = inputs.resolve().expect_err("override forbidden");

    assert!(matches!(error, ResolverError::Model(_)));
    assert_eq!(error.api_code(), ApiErrorCode::OverrideNotAllowed);
}

#[test]
fn should_map_an_unservable_route_to_fallback_exhausted() {
    let inputs = Inputs {
        input: input("hello"),
        workspace: workspace(),
        attachments: attachments(Vec::new()),
        recalled: recalled(),
        classification: chat_default(),
        routing: RoutingPolicy { default: default_route("openai/mini", &[]), rules: Vec::new() },
        privacy: privacy(&[]),
        // The only model needs a credential that was not supplied.
        catalog: vec![descriptor("openai/mini", false, true, 200_000)],
        credentialed: credentialed(&[]),
        local_only: false,
    };

    let error = inputs.resolve().expect_err("no usable model");

    assert_eq!(error.api_code(), ApiErrorCode::FallbackExhausted);
}

#[test]
fn should_error_when_no_model_can_serve_the_route() {
    let inputs = Inputs {
        input: input("hello"),
        workspace: workspace(),
        attachments: attachments(Vec::new()),
        recalled: recalled(),
        classification: chat_default(),
        routing: RoutingPolicy { default: default_route("openai/mini", &[]), rules: Vec::new() },
        privacy: privacy(&[]),
        // The only model needs a credential that was not supplied.
        catalog: vec![descriptor("openai/mini", false, true, 200_000)],
        credentialed: credentialed(&[]),
        local_only: false,
    };

    let error = inputs.resolve().expect_err("no usable model");

    assert!(matches!(error, ResolverError::Model(_)));
}

#[test]
fn should_error_when_required_context_exceeds_the_model_window() {
    let inputs = Inputs {
        input: input("hello"),
        workspace: workspace(),
        // Twenty characters is five tokens of required context.
        attachments: attachments(vec![file("a.rs", "abcdefghijklmnopqrst", true)]),
        recalled: recalled(),
        classification: chat_default(),
        routing: RoutingPolicy { default: default_route("ollama/llama3", &[]), rules: Vec::new() },
        privacy: privacy(&[]),
        // The five required tokens fit the window for selection, but the
        // three-token reply reserve leaves only two, too few to finalize.
        catalog: vec![descriptor_with_reply("ollama/llama3", true, false, 5, Some(3))],
        credentialed: credentialed(&[]),
        local_only: false,
    };

    let error = inputs.resolve().expect_err("context does not fit");

    assert!(matches!(error, ResolverError::Context(_)));
    assert_eq!(error.api_code(), ApiErrorCode::ContextWindowExceeded);
}

#[test]
fn should_carry_all_trace_data_in_the_plan() {
    let inputs = Inputs {
        input: input("refactor"),
        workspace: workspace(),
        attachments: attachments(vec![
            file("src/main.rs", "fn main() {}", true),
            file("notes.txt", "a discardable note that will not fit", false),
        ]),
        recalled: recalled(),
        classification: refactor_is_an_edit(),
        routing: RoutingPolicy { default: default_route("ollama/llama3", &[]), rules: Vec::new() },
        privacy: privacy(&[]),
        // A tiny window (with no reply reserve) fits the three-token required
        // file but not the discardable note.
        catalog: vec![descriptor_with_reply("ollama/llama3", true, false, 3, Some(0))],
        credentialed: credentialed(&[]),
        local_only: false,
    };

    let plan = inputs.resolve().expect("resolves");

    // Classification event data.
    assert_eq!(plan.classification.intent, TaskIntent::Edit);
    // Routing event data.
    assert!(matches!(plan.routing.provider, Provider::Ollama));
    assert_eq!(plan.routing.model, "llama3");
    assert!(!plan.routing.reason.is_empty());
    // Context-selection event data: every reference names its kind and reason.
    assert!(plan.context.references.iter().any(|reference| reference.included));
    assert!(plan.context.references.iter().any(|reference| !reference.included));
    assert!(plan.context.references.iter().all(|reference| !reference.reason.is_empty()));
    assert!(plan.context.included.iter().any(|candidate| candidate.kind == CandidateKind::File));
    assert!(!plan.context.outcome.included.is_empty());
}

#[test]
fn resolver_should_be_deterministic_across_calls() {
    let inputs = Inputs {
        input: input("refactor the auth middleware"),
        workspace: Workspace { referenced_paths: vec!["src/auth/login.rs".to_string()], ..workspace() },
        attachments: attachments(vec![file("src/auth/login.rs", "fn login() {}", true)]),
        recalled: recalled(),
        classification: chat_default(),
        routing: RoutingPolicy { default: default_route("openai/mini", &["ollama/llama3"]), rules: Vec::new() },
        privacy: privacy(&[]),
        catalog: vec![descriptor("openai/mini", false, true, 200_000), descriptor("ollama/llama3", true, false, 32_000)],
        credentialed: credentialed(&["openai"]),
        local_only: false,
    };

    let first = inputs.resolve().expect("resolves");
    let second = inputs.resolve().expect("resolves");

    assert_eq!(first.routing.intent, second.routing.intent);
    assert_eq!(first.routing.model, second.routing.model);
    assert_eq!(first.routing.reason, second.routing.reason);
    assert_eq!(first.routing.matched_rule, second.routing.matched_rule);
    assert_eq!(first.routing.fallback_used, second.routing.fallback_used);
    assert_eq!(first.model.reference().text(), second.model.reference().text());
    assert_eq!(texts(&first.fallbacks), texts(&second.fallbacks));
    assert_eq!(first.context.references.len(), second.context.references.len());
    for (a, b) in first.context.references.iter().zip(second.context.references.iter()) {
        assert_eq!(a.path, b.path);
        assert_eq!(a.kind, b.kind);
        assert_eq!(a.included, b.included);
        assert_eq!(a.reason, b.reason);
    }
    assert_eq!(first.context.outcome.included, second.context.outcome.included);
    assert_eq!(first.context.outcome.excluded, second.context.outcome.excluded);
}

#[test]
fn remaining_fallbacks_are_the_chain_after_the_chosen_model() {
    let route = DefaultRoute { model: reference("a/one"), fallbacks: vec![reference("b/two"), reference("c/three")] };
    let matched = RouteMatch { intent: TaskIntent::Chat, source: RouteSource::Default { route: &route }, reason: String::new() };
    assert_eq!(texts(&remaining_fallbacks(&matched, &reference("a/one"))), ["b/two", "c/three"]);
    assert_eq!(texts(&remaining_fallbacks(&matched, &reference("b/two"))), ["c/three"]);
    assert!(remaining_fallbacks(&matched, &reference("c/three")).is_empty());
    assert!(remaining_fallbacks(&matched, &reference("d/elsewhere")).is_empty());
}

#[test]
fn the_required_context_sizes_model_selection() {
    // Sixteen characters is four tokens of required context; the first model's
    // window cannot hold them, so selection walks to the fallback.
    let inputs = Inputs {
        input: input("hello"),
        workspace: workspace(),
        attachments: attachments(vec![file("a.rs", "abcdefghijklmnop", true)]),
        recalled: recalled(),
        classification: chat_default(),
        routing: RoutingPolicy { default: default_route("ollama/tiny", &["ollama/large"]), rules: Vec::new() },
        privacy: privacy(&[]),
        catalog: vec![
            descriptor_with_reply("ollama/tiny", true, false, 3, Some(0)),
            descriptor_with_reply("ollama/large", true, false, 100, Some(0)),
        ],
        credentialed: credentialed(&[]),
        local_only: false,
    };

    let plan = inputs.resolve().expect("resolves");

    assert_eq!(plan.model.reference().text(), "ollama/large");
    assert!(plan.routing.fallback_used);
}
