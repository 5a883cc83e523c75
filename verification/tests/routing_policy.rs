use smista_router::normalizer::NormalizedTask;
use smista_router::policy_matcher::{PolicyMatchError, PolicyMatcher, RouteSource};
use smista_router::types::{
    Classification, Confidence, DefaultRoute, IntentSource, ModelReference, Provider, RoutingPolicy, RoutingRule,
    TaskIntent, ToolsConfig,
};

fn task_with(intent: TaskIntent, touched: &[&str]) -> NormalizedTask {
    NormalizedTask {
        classification: Classification {
            intent,
            source: IntentSource::Inferred,
            reason: "test".to_string(),
            matched_rule: None,
            confidence: Some(Confidence::Low),
        },
        skills: Vec::new(),
        touched_files: touched.iter().map(|p| p.to_string()).collect(),
    }
}

fn model(reference: &str) -> ModelReference {
    let (provider, name) = reference.split_once('/').expect("provider/model");
    let provider = Provider::from_canonical(provider).unwrap_or(Provider::OpenAICompatible(provider.to_string()));
    ModelReference { provider, model: name.to_string() }
}

fn models(references: &[&str]) -> Vec<ModelReference> {
    references.iter().map(|r| model(r)).collect()
}

fn texts(references: &[ModelReference]) -> Vec<String> {
    references.iter().map(|r| r.text()).collect()
}

fn rule(name: &str, priority: u32, intent: Option<TaskIntent>, paths: &[&str], target: &str, fallbacks: &[&str]) -> RoutingRule {
    RoutingRule {
        name: name.to_string(),
        priority,
        intent,
        skill: None,
        paths: paths.iter().map(|p| p.to_string()).collect(),
        model: model(target),
        fallbacks: models(fallbacks),
        local_only: false,
        requires_capabilities: None,
        required_permissions: ToolsConfig { permissions: Vec::new() },
    }
}

fn policy(default: Option<(&str, &[&str])>, rules: Vec<RoutingRule>) -> RoutingPolicy {
    RoutingPolicy {
        default: default.map(|(target, fallbacks)| DefaultRoute { model: model(target), fallbacks: models(fallbacks) }),
        rules,
    }
}

#[test]
fn should_use_explicit_override_bypassing_rules() {
    let routing = policy(
        Some(("openai/mini", &[])),
        vec![rule("edits", 100, Some(TaskIntent::Edit), &[], "ollama/llama3", &[])],
    );
    let task = task_with(TaskIntent::Edit, &["src/main.rs"]);
    let pinned = model("anthropic/sonnet");

    let matched = PolicyMatcher.match_policy(&task, &routing, Some(&pinned)).expect("an override always routes");

    assert!(matched.override_used());
    assert_eq!(matched.model().text(), pinned.text());
    assert!(matched.fallbacks().is_empty());
    assert!(matched.matched_rule().is_none());
    assert_eq!(matched.intent, TaskIntent::Edit);
    assert!(matched.reason.contains("override"));
}

#[test]
fn should_match_rule_on_intent_and_path() {
    let routing = policy(
        Some(("openai/mini", &[])),
        vec![rule(
            "auth edits use Sonnet",
            100,
            Some(TaskIntent::Edit),
            &["src/auth/**"],
            "anthropic/sonnet",
            &["openai/thinking"],
        )],
    );
    let task = task_with(TaskIntent::Edit, &["src/auth/login.rs"]);

    let matched = PolicyMatcher.match_policy(&task, &routing, None).unwrap();

    assert!(!matched.override_used());
    assert_eq!(matched.model().text(), "anthropic/sonnet");
    assert_eq!(texts(matched.fallbacks()), ["openai/thinking"]);
    assert_eq!(matched.matched_rule().unwrap().name, "auth edits use Sonnet");
    assert_eq!(matched.reason, "rule 'auth edits use Sonnet' matched on intent and path");
    assert!(matches!(matched.source, RouteSource::Rule { index: 0, .. }));
}

#[test]
fn should_fall_back_to_default_route_when_no_rule_matches() {
    let routing = policy(
        Some(("openai/mini", &["ollama/qwen2.5-coder"])),
        vec![rule("auth", 100, None, &["src/auth/**"], "ollama/llama3", &[])],
    );
    let task = task_with(TaskIntent::Chat, &["docs/readme.md"]);

    let matched = PolicyMatcher.match_policy(&task, &routing, None).unwrap();

    assert!(matches!(matched.source, RouteSource::Default { .. }));
    assert_eq!(matched.model().text(), "openai/mini");
    assert_eq!(texts(matched.fallbacks()), ["ollama/qwen2.5-coder"]);
    assert!(matched.matched_rule().is_none());
    assert!(!matched.override_used());
    assert!(matched.reason.contains("default route"));
}

#[test]
fn should_error_when_no_rule_matches_and_no_default() {
    let routing = policy(None, vec![rule("auth", 100, None, &["src/auth/**"], "ollama/llama3", &[])]);
    let task = task_with(TaskIntent::Chat, &["docs/readme.md"]);

    let result = PolicyMatcher.match_policy(&task, &routing, None);

    assert!(matches!(result, Err(PolicyMatchError::NoRoute)));
}

#[test]
fn should_pick_lower_priority_value_first() {
    let routing = policy(
        Some(("openai/mini", &[])),
        vec![
            rule("late", 100, Some(TaskIntent::Edit), &[], "ollama/late", &[]),
            rule("early", 10, Some(TaskIntent::Edit), &[], "ollama/early", &[]),
        ],
    );
    let task = task_with(TaskIntent::Edit, &["src/main.rs"]);

    let matched = PolicyMatcher.match_policy(&task, &routing, None).unwrap();

    assert_eq!(matched.matched_rule().unwrap().name, "early");
    assert!(matches!(matched.source, RouteSource::Rule { index: 1, .. }));
}

#[test]
fn should_break_priority_ties_by_specificity() {
    // Both match at priority 10; the path+intent rule outranks intent-only.
    let routing = policy(
        Some(("openai/mini", &[])),
        vec![
            rule("intent only", 10, Some(TaskIntent::Edit), &[], "ollama/broad", &[]),
            rule("path and intent", 10, Some(TaskIntent::Edit), &["src/**"], "ollama/specific", &[]),
        ],
    );
    let task = task_with(TaskIntent::Edit, &["src/main.rs"]);

    let matched = PolicyMatcher.match_policy(&task, &routing, None).unwrap();

    assert_eq!(matched.matched_rule().unwrap().name, "path and intent");
}

#[test]
fn should_break_full_ties_by_configuration_order() {
    // Equal priority and specificity: the earlier rule in the config wins.
    let routing = policy(
        Some(("openai/mini", &[])),
        vec![
            rule("first", 10, Some(TaskIntent::Edit), &[], "ollama/first", &[]),
            rule("second", 10, Some(TaskIntent::Edit), &[], "ollama/second", &[]),
        ],
    );
    let task = task_with(TaskIntent::Edit, &["src/main.rs"]);

    let matched = PolicyMatcher.match_policy(&task, &routing, None).unwrap();

    assert_eq!(matched.matched_rule().unwrap().name, "first");
    assert!(matches!(matched.source, RouteSource::Rule { index: 0, .. }));
}

#[test]
fn should_skip_higher_precedence_rule_that_does_not_match() {
    // The lower-priority rule does not match this path, so the next wins.
    let routing = policy(
        Some(("openai/mini", &[])),
        vec![
            rule("auth only", 10, None, &["src/auth/**"], "ollama/auth", &[]),
            rule("any edit", 20, Some(TaskIntent::Edit), &[], "ollama/edit", &[]),
        ],
    );
    let task = task_with(TaskIntent::Edit, &["src/main.rs"]);

    let matched = PolicyMatcher.match_policy(&task, &routing, None).unwrap();

    assert_eq!(matched.matched_rule().unwrap().name, "any edit");
}

#[test]
fn should_match_conditionless_catch_all() {
    let routing = policy(Some(("openai/mini", &[])), vec![rule("catch all", 100, None, &[], "ollama/llama3", &[])]);
    let task = task_with(TaskIntent::Chat, &["anything.rs"]);

    let matched = PolicyMatcher.match_policy(&task, &routing, None).unwrap();

    assert_eq!(matched.matched_rule().unwrap().name, "catch all");
    assert_eq!(matched.reason, "rule 'catch all' matched as a catch-all");
}

#[test]
fn should_describe_path_only_and_intent_only_matches() {
    let path_only = policy(Some(("openai/mini", &[])), vec![rule("paths", 100, None, &["src/**"], "ollama/llama3", &[])]);
    let task = task_with(TaskIntent::Chat, &["src/main.rs"]);
    let matched = PolicyMatcher.match_policy(&task, &path_only, None).unwrap();
    assert_eq!(matched.reason, "rule 'paths' matched on path");

    let intent_only =
        policy(Some(("openai/mini", &[])), vec![rule("kind", 100, Some(TaskIntent::Review), &[], "ollama/llama3", &[])]);
    let task = task_with(TaskIntent::Review, &["src/main.rs"]);
    let matched = PolicyMatcher.match_policy(&task, &intent_only, None).unwrap();
    assert_eq!(matched.reason, "rule 'kind' matched on intent");
}

#[test]
fn should_let_override_win_even_when_a_rule_matches() {
    let routing = policy(
        Some(("openai/mini", &[])),
        vec![rule("edits", 100, Some(TaskIntent::Edit), &[], "ollama/llama3", &["ollama/backup"])],
    );
    let task = task_with(TaskIntent::Edit, &["src/main.rs"]);
    let pinned = model("anthropic/sonnet");

    let matched = PolicyMatcher.match_policy(&task, &routing, Some(&pinned)).unwrap();

    assert!(matched.override_used());
    assert_eq!(matched.model().text(), pinned.text());
    assert!(matched.fallbacks().is_empty());
}

#[test]
fn should_match_every_condition_shape_when_all_present_conditions_hold() {
    // The four match-condition shapes of a rule, each with a task that
    // satisfies every present condition: none, intent, path, path+intent.
    let cases = [
        (rule("none", 100, None, &[], "ollama/m", &[]), TaskIntent::Chat, vec!["x.rs"]),
        (rule("intent", 100, Some(TaskIntent::Edit), &[], "ollama/m", &[]), TaskIntent::Edit, vec!["x.rs"]),
        (rule("path", 100, None, &["src/**"], "ollama/m", &[]), TaskIntent::Chat, vec!["src/x.rs"]),
        (rule("both", 100, Some(TaskIntent::Edit), &["src/**"], "ollama/m", &[]), TaskIntent::Edit, vec!["src/x.rs"]),
    ];

    for (rule, intent, paths) in cases {
        let name = rule.name.clone();
        let routing = policy(Some(("openai/mini", &[])), vec![rule]);
        let task = task_with(intent, &paths);

        let matched = PolicyMatcher.match_policy(&task, &routing, None).unwrap();

        assert_eq!(
            matched.matched_rule().map(|rule| rule.name.as_str()),
            Some(name.as_str()),
            "rule '{name}' should match"
        );
    }
}

#[test]
fn should_fall_through_to_default_when_a_present_condition_fails() {
    // Every way a single present condition can fail: a wrong intent, a
    // non-matching path, and each half of a path+intent rule missing while
    // the other holds (the conditions are AND-combined).
    let cases = [
        (rule("intent", 100, Some(TaskIntent::Edit), &[], "ollama/m", &[]), TaskIntent::Chat, vec!["x.rs"]),
        (rule("path", 100, None, &["src/**"], "ollama/m", &[]), TaskIntent::Chat, vec!["docs/x.md"]),
        (
            rule("intent ok, path miss", 100, Some(TaskIntent::Edit), &["src/**"], "ollama/m", &[]),
            TaskIntent::Edit,
            vec!["docs/x.md"],
        ),
        (
            rule("path ok, intent miss", 100, Some(TaskIntent::Edit), &["src/**"], "ollama/m", &[]),
            TaskIntent::Chat,
            vec!["src/x.rs"],
        ),
    ];

    for (rule, intent, paths) in cases {
        let name = rule.name.clone();
        let routing = policy(Some(("openai/mini", &[])), vec![rule]);
        let task = task_with(intent, &paths);

        let matched = PolicyMatcher.match_policy(&task, &routing, None).unwrap();

        assert!(matches!(matched.source, RouteSource::Default { .. }), "rule '{name}' should not match");
    }
}

#[test]
fn should_match_when_any_glob_in_the_paths_list_matches() {
    // The path condition is OR across its globs and across the candidate
    // paths: only the second glob matches, only the second file matches.
    let routing = policy(
        Some(("openai/mini", &[])),
        vec![rule("multi", 100, None, &["src/auth/**", "src/crypto/**"], "ollama/m", &[])],
    );
    let task = task_with(TaskIntent::Chat, &["docs/readme.md", "src/crypto/aes.rs"]);

    let matched = PolicyMatcher.match_policy(&task, &routing, None).unwrap();

    assert_eq!(matched.matched_rule().unwrap().name, "multi");
}

#[test]
fn policy_matcher_should_be_deterministic_across_calls() {
    let routing = policy(Some(("openai/mini", &[])), vec![rule("edits", 100, Some(TaskIntent::Edit), &[], "ollama/llama3", &[])]);
    let task = task_with(TaskIntent::Edit, &["src/main.rs"]);

    let first = PolicyMatcher.match_policy(&task, &routing, None).unwrap();
    let second = PolicyMatcher.match_policy(&task, &routing, None).unwrap();

    assert_eq!(first.intent, second.intent);
    assert_eq!(first.reason, second.reason);
    assert_eq!(first.model().text(), second.model().text());
    assert!(matches!(
        (&first.source, &second.source),
        (RouteSource::Rule { index: 0, .. }, RouteSource::Rule { index: 0, .. })
    ));
}

#[test]
fn default_route_reason_names_its_model() {
    let routing = policy(Some(("openai/mini", &[])), Vec::new());
    let task = task_with(TaskIntent::Chat, &[]);

    let matched = PolicyMatcher.match_policy(&task, &routing, None).unwrap();

    assert_eq!(matched.reason, "no rule matched; using the default route to 'openai/mini'");
}

#[test]
fn override_reason_names_the_pinned_model() {
    let routing = policy(None, Vec::new());
    let task = task_with(TaskIntent::Chat, &[]);
    let pinned = model("my-vllm/qwen");

    let matched = PolicyMatcher.match_policy(&task, &routing, Some(&pinned)).unwrap();

    assert_eq!(matched.reason, "explicit model override 'my-vllm/qwen'");
}
