use smista_router::fuzzy::tokenize;
use smista_router::globs::paths_match;
use smista_router::normalizer::{NormalizedTask, TaskNormalizer};
use smista_router::resolver::{TaskInput, Workspace};
use smista_router::signals::{context_kinds, diff_paths, relevant_skills, skill_is_relevant, touched_files};
use smista_router::types::{
    Classification, ClassificationConfig, ClassificationRule, Confidence, IntentSource, ModelReference,
    Provider, RoutingRule, Skill, TaskIntent, ToolsConfig,
};

/// Builds a workspace with no signals; tests opt into the parts they need.
fn workspace() -> Workspace {
    Workspace {
        root: "/repo".to_string(),
        git_branch: None,
        git_diff: None,
        referenced_paths: Vec::new(),
        active_file: None,
    }
}

fn input(text: &str) -> TaskInput {
    TaskInput { text: text.to_string(), command: None, explicit_model: None }
}

fn rule(intent: TaskIntent, priority: u32, keywords: &[&str], contexts: &[&str]) -> ClassificationRule {
    ClassificationRule {
        intent,
        priority,
        keywords: keywords.iter().map(|k| k.to_string()).collect(),
        requires_any_context: contexts.iter().map(|c| c.to_string()).collect(),
    }
}

fn config(rules: Vec<ClassificationRule>) -> ClassificationConfig {
    ClassificationConfig { default_intent: TaskIntent::Chat, rules }
}

fn skill(name: &str) -> Skill {
    Skill { name: name.to_string(), description: format!("{name} skill"), content: "do the thing".to_string() }
}

fn no_skills() -> Vec<Skill> {
    Vec::new()
}

fn llama() -> ModelReference {
    ModelReference { provider: Provider::Ollama, model: "llama3".to_string() }
}

fn routing_rule(name: &str, intent: Option<TaskIntent>, skill: Option<&str>, paths: &[&str]) -> RoutingRule {
    RoutingRule {
        name: name.to_string(),
        priority: 100,
        intent,
        skill: skill.map(|s| s.to_string()),
        paths: paths.iter().map(|p| p.to_string()).collect(),
        model: llama(),
        fallbacks: Vec::new(),
        local_only: false,
        requires_capabilities: None,
        required_permissions: ToolsConfig { permissions: Vec::new() },
    }
}

fn task_with(intent: TaskIntent, skills: Vec<Skill>, touched: Vec<&str>) -> NormalizedTask {
    NormalizedTask {
        classification: Classification {
            intent,
            source: IntentSource::Inferred,
            reason: "test".to_string(),
            matched_rule: None,
            confidence: Some(Confidence::Low),
        },
        skills,
        touched_files: touched.into_iter().map(|p| p.to_string()).collect(),
    }
}

#[test]
fn should_derive_context_kinds_from_present_fields() {
    let mut ws = workspace();
    ws.git_diff = Some("diff".to_string());
    ws.active_file = Some("a.rs".to_string());

    let kinds = context_kinds(&ws);
    assert!(kinds.iter().any(|k| k == "git_diff"));
    assert!(kinds.iter().any(|k| k == "active_file"));
    assert!(!kinds.iter().any(|k| k == "git_branch"));
}

#[test]
fn should_union_touched_files_deduped_and_stable() {
    let mut ws = workspace();
    ws.referenced_paths = vec!["src/auth/login.rs".to_string()];
    ws.active_file = Some("src/auth/login.rs".to_string());
    ws.git_diff = Some("diff --git a/src/main.rs b/src/main.rs\ndiff --git a/Cargo.toml b/Cargo.toml".to_string());

    assert_eq!(touched_files(&ws), ["src/auth/login.rs", "src/main.rs", "Cargo.toml"]);
}

#[test]
fn should_select_skills_whose_every_name_token_appears() {
    let skills = vec![skill("security-review"), skill("changelog")];
    let tokens = tokenize("run a security review");

    let relevant = relevant_skills(&skills, &tokens);
    assert_eq!(relevant.len(), 1);
    assert_eq!(relevant[0].name, "security-review");
}

#[test]
fn should_match_paths_against_globs() {
    let globs = vec!["src/auth/**".to_string()];
    assert!(paths_match(&globs, &vec!["src/auth/login.rs".to_string()]));
    assert!(!paths_match(&globs, &vec!["src/main.rs".to_string()]));
}

#[test]
fn should_treat_empty_or_invalid_globs_as_no_match() {
    let paths = vec!["src/auth/login.rs".to_string()];
    assert!(!paths_match(&Vec::new(), &paths));
    assert!(!paths_match(&vec!["[".to_string()], &paths));
}

#[test]
fn deeply_nested_glob_that_cannot_be_built_matches_nothing() {
    let glob = format!("{}a{}", "{".repeat(300), "}".repeat(300));
    assert!(!paths_match(&vec![glob], &vec!["a".to_string()]));
}

#[test]
fn should_let_explicit_command_win_over_rules() {
    let mut request = input("review my changes");
    request.command = Some(TaskIntent::Edit);
    let cfg = config(vec![rule(TaskIntent::Review, 100, &["review"], &[])]);

    let task = TaskNormalizer.normalize(&request, &workspace(), &no_skills(), &cfg);

    assert_eq!(task.classification.intent, TaskIntent::Edit);
    assert_eq!(task.classification.source, IntentSource::Explicit);
    assert_eq!(task.classification.matched_rule, None);
    assert_eq!(task.classification.confidence, None);
}

#[test]
fn should_match_keyword_only_rule_with_medium_confidence() {
    let cfg = config(vec![rule(TaskIntent::Review, 100, &["review", "audit"], &[])]);

    let task = TaskNormalizer.normalize(&input("please review this"), &workspace(), &no_skills(), &cfg);

    assert_eq!(task.classification.intent, TaskIntent::Review);
    assert_eq!(task.classification.source, IntentSource::Inferred);
    assert_eq!(task.classification.matched_rule, Some(0));
    assert_eq!(task.classification.confidence, Some(Confidence::Medium));
}

#[test]
fn should_match_context_only_rule_with_medium_confidence() {
    let cfg = config(vec![rule(TaskIntent::Review, 100, &[], &["git_diff"])]);
    let mut ws = workspace();
    ws.git_diff = Some("diff --git a/x b/x".to_string());

    let task = TaskNormalizer.normalize(&input("anything"), &ws, &no_skills(), &cfg);

    assert_eq!(task.classification.intent, TaskIntent::Review);
    assert_eq!(task.classification.confidence, Some(Confidence::Medium));
}

#[test]
fn should_match_both_conditions_with_high_confidence() {
    let cfg = config(vec![rule(TaskIntent::Review, 100, &["review"], &["git_diff"])]);
    let mut ws = workspace();
    ws.git_diff = Some("diff --git a/x b/x".to_string());

    let task = TaskNormalizer.normalize(&input("review my changes"), &ws, &no_skills(), &cfg);

    assert_eq!(task.classification.confidence, Some(Confidence::High));
    assert!(task.classification.reason.contains("git_diff"));
}

#[test]
fn should_not_match_rule_when_required_context_is_absent() {
    let cfg = config(vec![rule(TaskIntent::Review, 100, &["review"], &["git_diff"])]);

    // "review this idea" with no diff available.
    let task = TaskNormalizer.normalize(&input("review this idea"), &workspace(), &no_skills(), &cfg);

    assert_eq!(task.classification.intent, TaskIntent::Chat);
    assert_eq!(task.classification.matched_rule, None);
    assert_eq!(task.classification.confidence, Some(Confidence::Low));
}

#[test]
fn should_fall_back_to_default_intent_when_no_rule_matches() {
    let cfg = config(vec![rule(TaskIntent::Edit, 100, &["refactor"], &[])]);

    let task = TaskNormalizer.normalize(&input("what does this do?"), &workspace(), &no_skills(), &cfg);

    assert_eq!(task.classification.intent, TaskIntent::Chat);
    assert_eq!(task.classification.source, IntentSource::Inferred);
    assert_eq!(task.classification.confidence, Some(Confidence::Low));
}

#[test]
fn should_match_conditionless_catch_all_with_low_confidence() {
    let cfg = config(vec![rule(TaskIntent::Plan, 100, &[], &[])]);

    let task = TaskNormalizer.normalize(&input("anything at all"), &workspace(), &no_skills(), &cfg);

    assert_eq!(task.classification.intent, TaskIntent::Plan);
    assert_eq!(task.classification.confidence, Some(Confidence::Low));
}

#[test]
fn should_pick_first_rule_by_priority_keeping_original_index() {
    let cfg = config(vec![rule(TaskIntent::Plan, 100, &["go"], &[]), rule(TaskIntent::Edit, 10, &["go"], &[])]);

    let task = TaskNormalizer.normalize(&input("go"), &workspace(), &no_skills(), &cfg);

    // The lower-priority-value rule (index 1) wins; its configured index is kept.
    assert_eq!(task.classification.intent, TaskIntent::Edit);
    assert_eq!(task.classification.matched_rule, Some(1));
}

#[test]
fn should_break_priority_ties_on_configuration_order() {
    let cfg = config(vec![rule(TaskIntent::Plan, 10, &["go"], &[]), rule(TaskIntent::Edit, 10, &["go"], &[])]);

    let task = TaskNormalizer.normalize(&input("go"), &workspace(), &no_skills(), &cfg);

    assert_eq!(task.classification.intent, TaskIntent::Plan);
    assert_eq!(task.classification.matched_rule, Some(0));
}

#[test]
fn should_match_keyword_through_a_typo_and_cap_confidence_at_medium() {
    let cfg = config(vec![rule(TaskIntent::Edit, 100, &["implement"], &["git_diff"])]);
    let mut ws = workspace();
    ws.git_diff = Some("diff --git a/x b/x".to_string());

    // "impelment" is one OSA transposition from "implement".
    let task = TaskNormalizer.normalize(&input("impelment the feature"), &ws, &no_skills(), &cfg);

    assert_eq!(task.classification.intent, TaskIntent::Edit);
    // Both conditions held, but the fuzzy keyword caps the signal.
    assert_eq!(task.classification.confidence, Some(Confidence::Medium));
}

#[test]
fn should_require_exact_match_for_short_keywords() {
    let cfg = config(vec![rule(TaskIntent::Edit, 100, &["edit"], &[])]);

    // "audit" is one edit from "edit" but four-character keywords are exact-only.
    let task = TaskNormalizer.normalize(&input("audit the code"), &workspace(), &no_skills(), &cfg);

    assert_eq!(task.classification.intent, TaskIntent::Chat);
}

#[test]
fn should_reject_two_typos_in_the_medium_length_bucket() {
    let cfg = config(vec![rule(TaskIntent::Review, 100, &["review"], &[])]);

    // "revixx" is distance two from the six-character keyword (cap one).
    let task = TaskNormalizer.normalize(&input("revixx the code"), &workspace(), &no_skills(), &cfg);

    assert_eq!(task.classification.intent, TaskIntent::Chat);
}

#[test]
fn should_not_fuzzy_match_unrelated_word_with_keyword_suffix() {
    let cfg = config(vec![rule(TaskIntent::Review, 100, &["review"], &[])]);

    let task = TaskNormalizer.normalize(&input("preview the page"), &workspace(), &no_skills(), &cfg);

    assert_eq!(task.classification.intent, TaskIntent::Chat);
}

#[test]
fn normalizer_should_be_deterministic_across_calls() {
    let cfg = config(vec![rule(TaskIntent::Review, 100, &["review"], &[])]);
    let request = input("review please");

    let first = TaskNormalizer.normalize(&request, &workspace(), &no_skills(), &cfg);
    let second = TaskNormalizer.normalize(&request, &workspace(), &no_skills(), &cfg);

    assert_eq!(first.classification.intent, second.classification.intent);
    assert_eq!(first.classification.source, second.classification.source);
    assert_eq!(first.classification.reason, second.classification.reason);
    assert_eq!(first.classification.matched_rule, second.classification.matched_rule);
    assert_eq!(first.classification.confidence, second.classification.confidence);
    assert_eq!(first.touched_files, second.touched_files);
    assert_eq!(first.skills.len(), second.skills.len());
}

#[test]
fn should_collect_touched_files_deduped_in_stable_order() {
    let mut ws = workspace();
    ws.referenced_paths = vec!["src/auth/login.rs".to_string()];
    ws.active_file = Some("src/auth/login.rs".to_string());
    ws.git_diff = Some(
        "diff --git a/src/main.rs b/src/main.rs\n+++ b/src/main.rs\ndiff --git a/Cargo.toml b/Cargo.toml".to_string(),
    );

    let task = TaskNormalizer.normalize(&input("go"), &ws, &no_skills(), &config(Vec::new()));

    assert_eq!(task.touched_files, ["src/auth/login.rs", "src/main.rs", "Cargo.toml"]);
}

#[test]
fn should_select_skills_matching_a_prompt_token() {
    let skills = vec![skill("changelog"), skill("security-review")];

    let task = TaskNormalizer.normalize(&input("update the changelog"), &workspace(), &skills, &config(Vec::new()));

    assert_eq!(task.skills.len(), 1);
    assert_eq!(task.skills[0].name, "changelog");
}

#[test]
fn should_select_hyphenated_skill_matching_prompt_words() {
    let skills = vec![skill("security-review"), skill("changelog")];

    let task = TaskNormalizer.normalize(&input("run a security review"), &workspace(), &skills, &config(Vec::new()));

    assert_eq!(task.skills.len(), 1);
    assert_eq!(task.skills[0].name, "security-review");
}

#[test]
fn should_select_no_skills_when_none_are_named() {
    let skills = vec![skill("changelog")];

    let task = TaskNormalizer.normalize(&input("fix the bug"), &workspace(), &skills, &config(Vec::new()));

    assert!(task.skills.is_empty());
}

#[test]
fn should_match_conditionless_routing_rule() {
    let rule = routing_rule("any", None, None, &[]);
    let task = task_with(TaskIntent::Chat, vec![], vec!["src/main.rs"]);
    assert!(task.matches(&rule));
}

#[test]
fn should_match_routing_rule_on_intent_and_path() {
    let rule = routing_rule("auth edits", Some(TaskIntent::Edit), None, &["src/auth/**"]);

    let hit = task_with(TaskIntent::Edit, vec![], vec!["src/auth/login.rs"]);
    assert!(hit.matches(&rule));

    let wrong_intent = task_with(TaskIntent::Review, vec![], vec!["src/auth/login.rs"]);
    assert!(!wrong_intent.matches(&rule));

    let wrong_path = task_with(TaskIntent::Edit, vec![], vec!["docs/readme.md"]);
    assert!(!wrong_path.matches(&rule));
}

#[test]
fn should_match_routing_rule_skill_against_the_relevant_set() {
    let rule = routing_rule("changelog skill", None, Some("changelog"), &[]);

    let hit = task_with(TaskIntent::Chat, vec![skill("changelog"), skill("security-review")], vec![]);
    assert!(hit.matches(&rule));

    let miss = task_with(TaskIntent::Chat, vec![skill("security-review")], vec![]);
    assert!(!miss.matches(&rule));
}

#[test]
fn should_treat_invalid_routing_globs_as_no_match() {
    let mut rule = routing_rule("bad", None, None, &[]);
    rule.paths = vec!["[".to_string()];

    let task = task_with(TaskIntent::Chat, vec![], vec!["src/main.rs"]);
    assert!(!task.matches(&rule));
}

#[test]
fn diff_paths_reads_the_new_side_of_each_header_once() {
    let diff = "diff --git a/old.rs b/new.rs\n+++ b/new.rs\ndiff --git a/x y\ndiff --git a/lib.rs b/lib.rs\r\n";
    assert_eq!(diff_paths(diff), ["new.rs", "lib.rs"]);
    assert!(diff_paths("").is_empty());
}

#[test]
fn skill_relevance_needs_every_name_token() {
    let tokens = tokenize("please run the security checks");
    assert!(!skill_is_relevant("security-review", &tokens));
    assert!(skill_is_relevant("Security", &tokens));
    assert!(!skill_is_relevant("", &tokens));
}

#[test]
fn match_reason_names_the_keyword_and_context() {
    let cfg = config(vec![rule(TaskIntent::Review, 100, &["review"], &["git_diff"])]);
    let mut ws = workspace();
    ws.git_diff = Some("diff --git a/x b/x".to_string());

    let task = TaskNormalizer.normalize(&input("review it"), &ws, &no_skills(), &cfg);

    assert_eq!(task.classification.reason, "keyword 'review' and context 'git_diff' matched rule 0");
}
