use smista_router::context::{
    dedupe, dedupe_key, recency_bonus, reference_for, supersedes, Candidate, CandidateKind, CandidateSet, ContextError,
    ContextSelector, MemoryFact, RecalledContext, RecalledMessage, Relevance,
};
use smista_router::policy_matcher::{RouteMatch, RouteSource};
use smista_router::resolver::{Attachments, ContextFile, ContextInstruction, Workspace};
use smista_router::types::{
    DefaultRoute, MessageRole, ModelAuthRequirement, ModelCapabilities, ModelDescriptor, ModelReference, PrivacyPolicy,
    Provider, RoutingRule, Skill, TaskIntent, ToolsConfig,
};

fn llama() -> ModelReference {
    ModelReference { provider: Provider::Ollama, model: "llama3".to_string() }
}

fn default_route() -> DefaultRoute {
    DefaultRoute { model: llama(), fallbacks: Vec::new() }
}

fn route_match(route: &DefaultRoute) -> RouteMatch<'_> {
    RouteMatch { intent: TaskIntent::Chat, source: RouteSource::Default { route }, reason: "default route".to_string() }
}

fn rule_on_paths(paths: &[&str]) -> RoutingRule {
    RoutingRule {
        name: "auth".to_string(),
        priority: 100,
        intent: None,
        skill: None,
        paths: paths.iter().map(|p| p.to_string()).collect(),
        model: llama(),
        fallbacks: Vec::new(),
        local_only: false,
        requires_capabilities: None,
        required_permissions: ToolsConfig { permissions: Vec::new() },
    }
}

fn file(path: &str, content: &str, required: bool) -> ContextFile {
    ContextFile { path: path.to_string(), content: content.to_string(), required }
}

fn attachments(files: Vec<ContextFile>, instructions: Vec<ContextInstruction>) -> Attachments {
    Attachments { files, instructions, invoked_skills: Vec::new(), available_skills: Vec::new() }
}

fn workspace(referenced: &[&str], git_diff: Option<&str>) -> Workspace {
    Workspace {
        root: "/workspace".to_string(),
        git_branch: None,
        git_diff: git_diff.map(str::to_string),
        referenced_paths: referenced.iter().map(|p| p.to_string()).collect(),
        active_file: None,
    }
}

fn privacy(restricted: &[&str]) -> PrivacyPolicy {
    PrivacyPolicy { restricted_paths: restricted.iter().map(|p| p.to_string()).collect() }
}

fn empty_recalled() -> RecalledContext {
    RecalledContext { messages: Vec::new(), user_memory: Vec::new(), context_memory: Vec::new() }
}

fn message(content: &str) -> RecalledMessage {
    RecalledMessage { role: MessageRole::User, path: None, content: content.to_string() }
}

fn message_on(content: &str, path: &str) -> RecalledMessage {
    RecalledMessage { path: Some(path.to_string()), ..message(content) }
}

fn memory(key: &str, content: &str) -> MemoryFact {
    MemoryFact { key: key.to_string(), content: content.to_string() }
}

fn skill(name: &str, content: &str) -> Skill {
    Skill { name: name.to_string(), description: String::new(), content: content.to_string() }
}

fn attachments_skills(invoked: Vec<Skill>, available: Vec<Skill>) -> Attachments {
    Attachments { files: Vec::new(), instructions: Vec::new(), invoked_skills: invoked, available_skills: available }
}

/// A local model with the given window and reply reserve.
fn model(window: u32, reply: Option<u32>) -> ModelDescriptor {
    ModelDescriptor {
        provider: Provider::Ollama,
        model: "llama3".to_string(),
        display_name: None,
        local: true,
        auth: ModelAuthRequirement::Keyless,
        capabilities: ModelCapabilities {
            streaming: true,
            tools: false,
            json_output: false,
            system_prompt: true,
            images: false,
            reasoning: false,
            memory: false,
        },
        max_context_tokens: window,
        max_output_tokens: reply,
    }
}

fn file_candidate(set: &CandidateSet) -> &Candidate {
    set.candidates.iter().find(|c| c.kind == CandidateKind::File).expect("a file candidate")
}

fn candidate(kind: CandidateKind, path: Option<&str>, content: &str, required: bool, score: u32) -> Candidate {
    Candidate {
        kind,
        path: path.map(|p| p.to_string()),
        content: content.to_string(),
        estimated_tokens: 1,
        restricted_for_remote: false,
        required,
        relevance: Relevance { score, reason: format!("{content} reason") },
    }
}

#[test]
fn should_mark_an_attached_required_file_as_required() {
    let route = default_route();
    let att = attachments(vec![file("src/main.rs", "fn main() {}", true)], Vec::new());
    let set = ContextSelector.build_candidates(&route_match(&route), &empty_recalled(), &att, &workspace(&[], None), &privacy(&[]));
    assert!(file_candidate(&set).required);
}

#[test]
fn should_mark_a_restricted_file_by_privacy_path() {
    let route = default_route();
    let att = attachments(vec![file(".env", "SECRET=1", false), file("src/main.rs", "ok", false)], Vec::new());
    let set =
        ContextSelector.build_candidates(&route_match(&route), &empty_recalled(), &att, &workspace(&[], None), &privacy(&[".env"]));
    let env = set.candidates.iter().find(|c| c.path.as_deref() == Some(".env")).expect("env candidate");
    let main = set.candidates.iter().find(|c| c.path.as_deref() == Some("src/main.rs")).expect("main candidate");
    assert!(env.restricted_for_remote);
    assert!(!main.restricted_for_remote);
}

#[test]
fn should_size_each_candidate_with_the_estimator() {
    let route = default_route();
    // Eight characters divided by four characters per token is two tokens.
    let att = attachments(vec![file("a.rs", "abcdefgh", false)], Vec::new());
    let set = ContextSelector.build_candidates(&route_match(&route), &empty_recalled(), &att, &workspace(&[], None), &privacy(&[]));
    assert_eq!(file_candidate(&set).estimated_tokens, 2);
}

#[test]
fn should_collect_candidates_from_every_source() {
    let route = default_route();
    let recalled = RecalledContext {
        messages: vec![message("a past message")],
        user_memory: vec![memory("pref", "likes rust")],
        context_memory: Vec::new(),
    };
    let att = attachments(
        vec![file("a.rs", "code", false)],
        vec![ContextInstruction { source: "SMISTA.md".to_string(), content: "follow the rules".to_string() }],
    );
    let set = ContextSelector.build_candidates(
        &route_match(&route),
        &recalled,
        &att,
        &workspace(&[], Some("diff --git ...")),
        &privacy(&[]),
    );
    let kinds: Vec<CandidateKind> = set.candidates.iter().map(|c| c.kind).collect();
    assert!(kinds.contains(&CandidateKind::Message));
    assert!(kinds.contains(&CandidateKind::Memory));
    assert!(kinds.contains(&CandidateKind::File));
    assert!(kinds.contains(&CandidateKind::Instruction));
    assert!(kinds.contains(&CandidateKind::Diff));
}

#[test]
fn should_mark_a_referenced_path_as_required() {
    let route = default_route();
    let att = attachments(vec![file("src/lib.rs", "pub fn x() {}", false)], Vec::new());
    let set = ContextSelector.build_candidates(
        &route_match(&route),
        &empty_recalled(),
        &att,
        &workspace(&["src/lib.rs"], None),
        &privacy(&[]),
    );
    assert!(file_candidate(&set).required);
}

#[test]
fn should_mark_a_route_driving_path_as_required() {
    let rule = rule_on_paths(&["src/auth/**"]);
    let route = RouteMatch { intent: TaskIntent::Edit, source: RouteSource::Rule { index: 0, rule: &rule }, reason: "auth rule".to_string() };
    let att = attachments(vec![file("src/auth/mod.rs", "mod x;", false)], Vec::new());
    let set = ContextSelector.build_candidates(&route, &empty_recalled(), &att, &workspace(&[], None), &privacy(&[]));
    assert!(file_candidate(&set).required);
}

#[test]
fn should_keep_every_candidate_when_the_set_fits() {
    let route = default_route();
    let att = attachments(vec![file("a.rs", "tiny", false)], Vec::new());
    let set = ContextSelector.build_candidates(&route_match(&route), &empty_recalled(), &att, &workspace(&[], None), &privacy(&[]));
    let resolved = ContextSelector.finalize(set, &model(1_000, Some(0))).expect("fits");
    assert!(resolved.outcome.excluded.is_empty());
    assert_eq!(resolved.included.len(), 1);
}

#[test]
fn should_drop_the_lowest_discardable_context_to_fit() {
    let route = default_route();
    // One required file (one token) plus two discardable memory facts (two
    // tokens each). A window of three fits the file and one memory fact.
    let recalled = RecalledContext {
        messages: Vec::new(),
        user_memory: vec![memory("m0", "abcdefgh"), memory("m1", "ijklmnop")],
        context_memory: Vec::new(),
    };
    let att = attachments(vec![file("a.rs", "ab", true)], Vec::new());
    let set = ContextSelector.build_candidates(&route_match(&route), &recalled, &att, &workspace(&[], None), &privacy(&[]));
    let resolved = ContextSelector.finalize(set, &model(3, Some(0))).expect("required fits");
    assert!(resolved.included.iter().any(|c| c.kind == CandidateKind::File));
    let excluded_memory = resolved.references.iter().filter(|r| !r.included && r.kind == CandidateKind::Memory).count();
    assert_eq!(excluded_memory, 1);
}

#[test]
fn should_never_drop_a_required_candidate_to_fit() {
    let route = default_route();
    let att = attachments(vec![file("a.rs", "abc", true), file("b.rs", "abcdefgh", false)], Vec::new());
    let set = ContextSelector.build_candidates(&route_match(&route), &empty_recalled(), &att, &workspace(&[], None), &privacy(&[]));
    // A window of one token fits only the required file; the discardable one
    // is dropped, the required one is kept.
    let resolved = ContextSelector.finalize(set, &model(1, Some(0))).expect("required fits");
    assert!(resolved.included.iter().any(|c| c.path.as_deref() == Some("a.rs")));
    assert!(resolved.references.iter().any(|r| !r.included && r.path.as_deref() == Some("b.rs")));
}

#[test]
fn should_error_when_required_context_exceeds_the_window() {
    let route = default_route();
    // Twenty characters is five tokens; a three-token window cannot fit it.
    let att = attachments(vec![file("a.rs", "abcdefghijklmnopqrst", true)], Vec::new());
    let set = ContextSelector.build_candidates(&route_match(&route), &empty_recalled(), &att, &workspace(&[], None), &privacy(&[]));
    let error = ContextSelector.finalize(set, &model(3, Some(0))).expect_err("required exceeds window");
    assert!(matches!(error, ContextError::WindowExceeded { estimated: 5, budget: 3 }));
}

#[test]
fn should_report_an_outcome_and_references_for_included_and_excluded() {
    let route = default_route();
    let recalled = RecalledContext {
        messages: Vec::new(),
        user_memory: vec![memory("m0", "abcdefgh"), memory("m1", "ijklmnop")],
        context_memory: Vec::new(),
    };
    let att = attachments(vec![file("a.rs", "ab", true)], Vec::new());
    let set = ContextSelector.build_candidates(&route_match(&route), &recalled, &att, &workspace(&[], None), &privacy(&[]));
    let resolved = ContextSelector.finalize(set, &model(3, Some(0))).expect("required fits");
    assert!(!resolved.outcome.included.is_empty());
    assert_eq!(resolved.outcome.excluded.len(), 1);
    assert!(resolved.references.iter().any(|r| r.included));
    assert!(resolved.references.iter().any(|r| !r.included));
}

#[test]
fn should_keep_the_newer_message_when_only_one_fits() {
    let route = default_route();
    // Two one-token messages, oldest first; a one-token budget fits one. The
    // newer message must survive, the older one must be excluded.
    let recalled = RecalledContext { messages: vec![message("old"), message("new")], user_memory: Vec::new(), context_memory: Vec::new() };
    let set = ContextSelector.build_candidates(
        &route_match(&route),
        &recalled,
        &attachments(Vec::new(), Vec::new()),
        &workspace(&[], None),
        &privacy(&[]),
    );
    let resolved = ContextSelector.finalize(set, &model(1, Some(0))).expect("one message fits");
    assert!(resolved.included.iter().any(|c| c.content == "new"));
    assert!(resolved.references.iter().any(|r| !r.included && r.reason.contains("message")));
}

#[test]
fn should_require_instruction_documents() {
    let route = default_route();
    let att = attachments(
        Vec::new(),
        vec![ContextInstruction { source: "SMISTA.md".to_string(), content: "always do x".to_string() }],
    );
    let set = ContextSelector.build_candidates(&route_match(&route), &empty_recalled(), &att, &workspace(&[], None), &privacy(&[]));
    let instruction = set.candidates.iter().find(|c| c.kind == CandidateKind::Instruction).expect("an instruction candidate");
    assert!(instruction.required);
}

#[test]
fn should_require_invoked_skills_but_not_available_ones() {
    let route = default_route();
    let att = attachments_skills(vec![skill("deploy", "how to deploy")], vec![skill("lint", "how to lint")]);
    let set = ContextSelector.build_candidates(&route_match(&route), &empty_recalled(), &att, &workspace(&[], None), &privacy(&[]));
    let invoked = set.candidates.iter().find(|c| c.relevance.reason.contains("invoked skill")).expect("invoked skill candidate");
    let available =
        set.candidates.iter().find(|c| c.relevance.reason.contains("available skill")).expect("available skill candidate");
    assert!(invoked.required);
    assert!(!available.required);
}

#[test]
fn should_collapse_a_file_and_a_message_on_the_same_path() {
    let route = default_route();
    // The same path arrives twice: as an attached file and as a history
    // message. They collapse to one candidate, keeping the higher-ranked file.
    let recalled =
        RecalledContext { messages: vec![message_on("old content", "src/lib.rs")], user_memory: Vec::new(), context_memory: Vec::new() };
    let att = attachments(vec![file("src/lib.rs", "pub fn x() {}", false)], Vec::new());
    let set = ContextSelector.build_candidates(&route_match(&route), &recalled, &att, &workspace(&[], None), &privacy(&[]));
    let on_path: Vec<&Candidate> = set.candidates.iter().filter(|c| c.path.as_deref() == Some("src/lib.rs")).collect();
    assert_eq!(on_path.len(), 1);
    assert_eq!(on_path[0].kind, CandidateKind::File);
}

#[test]
fn should_boost_a_message_about_a_focused_path() {
    let route = default_route();
    // The focused message is the older one, so recency favors the plain
    // message; path affinity must still rank the focused one higher.
    let recalled = RecalledContext {
        messages: vec![message_on("focused", "src/auth.rs"), message("plain")],
        user_memory: Vec::new(),
        context_memory: Vec::new(),
    };
    let set = ContextSelector.build_candidates(
        &route_match(&route),
        &recalled,
        &attachments(Vec::new(), Vec::new()),
        &workspace(&["src/auth.rs"], None),
        &privacy(&[]),
    );
    let focused = set.candidates.iter().find(|c| c.content == "focused").expect("focused message");
    let plain = set.candidates.iter().find(|c| c.content == "plain").expect("plain message");
    assert!(focused.relevance.score > plain.relevance.score);
}

#[test]
fn should_reserve_room_for_the_reply_before_fitting() {
    let route = default_route();
    // Three two-token memory facts. A ten-token window with a five-token reply
    // reserve leaves a five-token budget, which fits only two of them.
    let recalled = RecalledContext {
        messages: Vec::new(),
        user_memory: vec![memory("m0", "abcdefgh"), memory("m1", "ijklmnop"), memory("m2", "qrstuvwx")],
        context_memory: Vec::new(),
    };
    let set = ContextSelector.build_candidates(
        &route_match(&route),
        &recalled,
        &attachments(Vec::new(), Vec::new()),
        &workspace(&[], None),
        &privacy(&[]),
    );
    let resolved = ContextSelector.finalize(set, &model(10, Some(5))).expect("budget holds two facts");
    assert_eq!(resolved.included.len(), 2);
    assert_eq!(resolved.outcome.excluded.len(), 1);
}

#[test]
fn an_unbounded_reply_reserves_a_default_room() {
    let route = default_route();
    // Twenty characters is five tokens; a 260-token window less the default
    // 256-token reserve leaves four.
    let att = attachments(vec![file("a.rs", "abcdefghijklmnopqrst", true)], Vec::new());
    let set = ContextSelector.build_candidates(&route_match(&route), &empty_recalled(), &att, &workspace(&[], None), &privacy(&[]));
    let error = ContextSelector.finalize(set, &model(260, None)).expect_err("does not fit");
    assert!(matches!(error, ContextError::WindowExceeded { estimated: 5, budget: 4 }));
}

#[test]
fn a_reserve_larger_than_the_window_leaves_no_budget() {
    let route = default_route();
    let set = ContextSelector.build_candidates(
        &route_match(&route),
        &empty_recalled(),
        &attachments(vec![file("a.rs", "a", true)], Vec::new()),
        &workspace(&[], None),
        &privacy(&[]),
    );
    let error = ContextSelector.finalize(set, &model(3, Some(10))).expect_err("no budget");
    assert!(matches!(error, ContextError::WindowExceeded { estimated: 1, budget: 0 }));
}

#[test]
fn required_tokens_and_restriction_marks_come_from_required_candidates() {
    let route = default_route();
    let att = attachments(vec![file(".env", "SECRET=12", false), file("a.rs", "abcdefgh", true)], Vec::new());
    let set = ContextSelector.build_candidates(&route_match(&route), &empty_recalled(), &att, &workspace(&[], None), &privacy(&[".env"]));
    assert_eq!(set.required_tokens(), 2);
    // The restricted file is discardable, so it forces nothing.
    assert!(!set.has_restricted_required_content());

    let att = attachments(vec![file(".env", "SECRET=12", true)], Vec::new());
    let set = ContextSelector.build_candidates(&route_match(&route), &empty_recalled(), &att, &workspace(&[], None), &privacy(&[".env"]));
    assert!(set.has_restricted_required_content());
    assert_eq!(set.required_tokens(), 3);
}

#[test]
fn recency_scales_the_position_into_the_bonus_range() {
    assert_eq!(recency_bonus(0, 1), 0);
    assert_eq!(recency_bonus(0, 3), 0);
    assert_eq!(recency_bonus(1, 3), 249);
    assert_eq!(recency_bonus(2, 3), 499);
}

#[test]
fn dedupe_keys_use_the_path_or_else_the_content() {
    assert_eq!(dedupe_key(&candidate(CandidateKind::File, Some("src/a.rs"), "x", false, 1)), "path:src/a.rs");
    assert_eq!(dedupe_key(&candidate(CandidateKind::Memory, None, "likes rust", false, 1)), "content:likes rust");
}

#[test]
fn a_required_candidate_supersedes_a_discardable_one_whatever_the_scores() {
    let required = candidate(CandidateKind::File, Some("a"), "x", true, 1);
    let discardable = candidate(CandidateKind::Message, Some("a"), "y", false, 9_000);
    assert!(supersedes(&required, &discardable));
    assert!(!supersedes(&discardable, &required));
    let low = candidate(CandidateKind::Message, Some("a"), "y", false, 10);
    let high = candidate(CandidateKind::Message, Some("a"), "z", false, 20);
    assert!(supersedes(&high, &low));
    assert!(!supersedes(&low, &high));
    assert!(!supersedes(&low, &low));
}

#[test]
fn dedupe_keeps_first_seen_order_and_the_winner_of_each_key() {
    let deduped = dedupe(vec![
        candidate(CandidateKind::Message, Some("a"), "first", false, 10),
        candidate(CandidateKind::Memory, None, "fact", false, 5),
        candidate(CandidateKind::File, Some("a"), "second", false, 20),
        candidate(CandidateKind::Memory, None, "fact", false, 1),
    ]);
    let contents: Vec<&str> = deduped.iter().map(|c| c.content.as_str()).collect();
    assert_eq!(contents, ["second", "fact"]);
    assert_eq!(deduped[1].relevance.score, 5);
}

#[test]
fn references_record_the_decision_without_content() {
    let reference = reference_for(&candidate(CandidateKind::File, Some("src/a.rs"), "secret body", true, 1), false);
    assert_eq!(reference.path.as_deref(), Some("src/a.rs"));
    assert_eq!(reference.kind, CandidateKind::File);
    assert!(!reference.included);
    assert_eq!(reference.reason, "secret body reason");
}

#[test]
fn recency_bonus_scales_an_index_past_the_last_message_the_same_way() {
    assert_eq!(recency_bonus(5, 3), 1247);
    assert_eq!(recency_bonus(10_000_000, 2), 499);
}

#[test]
fn a_deeply_nested_privacy_glob_restricts_nothing() {
    let glob = format!("{}secret{}", "{".repeat(300), "}".repeat(300));
    let policy = privacy(&[glob.as_str()]);
    assert!(!policy.is_restricted_for_remote("secret"));
}
