use smista_router::authorization::{bearer_token, AuthorizationHeader};
use smista_router::context::{recency_bonus, CandidateKind, ContextSelector, MemoryFact, RecalledContext};
use smista_router::credentials::provider_from_header;
use smista_router::listing::resolve_timeout_ms;
use smista_router::policy_matcher::{RouteMatch, RouteSource};
use smista_router::resolver::{Attachments, ContextFile, Workspace};
use smista_router::streaming::chunk_in_two;
use smista_router::types::{
    DefaultRoute, ModelAuthRequirement, ModelCapabilities, ModelDescriptor, ModelReference, PrivacyPolicy, Provider, TaskIntent,
};
use smista_router::usage::{aggregate, CostEvent, CostPayload};

#[test]
fn every_event_is_counted_once_in_each_breakdown() {
    let kinds = [TaskIntent::Chat, TaskIntent::Edit, TaskIntent::Chat, TaskIntent::Review, TaskIntent::Edit];
    let models = ["a", "b", "a", "c", "b"];
    let events: Vec<CostEvent> = kinds
        .iter()
        .zip(models.iter())
        .enumerate()
        .map(|(i, (kind, model))| CostEvent {
            task_type: *kind,
            provider: Provider::OpenAI,
            model: model.to_string(),
            cost: if i % 2 == 0 { None } else { Some(CostPayload { input_tokens: 1, output_tokens: 1, cost: None }) },
        })
        .collect();

    let usage = aggregate(&events);

    let by_model: u32 = usage.by_model.iter().map(|m| m.request_count).sum();
    let by_task: u32 = usage.by_task_type.iter().map(|t| t.request_count).sum();
    assert_eq!(by_model as usize, events.len());
    assert_eq!(by_task as usize, events.len());
}

#[test]
fn credential_headers_name_back_their_provider() {
    for (provider, name) in
        [(Provider::Anthropic, "anthropic"), (Provider::Gemini, "gemini"), (Provider::OpenAI, "openai"), (Provider::Ollama, "ollama")]
    {
        let header = format!("x-smista-provider-{name}-api-key");
        let parsed = provider_from_header(&header).expect("a credential header");
        assert!(parsed.same(&provider));
    }
    match provider_from_header("x-smista-provider-local_vllm-2-api-key") {
        Some(Provider::OpenAICompatible(instance)) => assert_eq!(instance, "local_vllm-2"),
        other => panic!("unexpected {other:?}"),
    }
}

#[test]
fn bearer_headers_give_back_their_token() {
    for token in ["", "abc", "Bearer nested", "with spaces and ünïcode"] {
        let header = format!("Bearer {token}");
        assert_eq!(bearer_token(AuthorizationHeader::Text(&header)), Ok(token.to_string()));
    }
}

#[test]
fn the_listing_deadline_stays_within_its_bounds() {
    for value in [None, Some("0"), Some("1"), Some("59999"), Some("60001"), Some("+5"), Some("99999999999999999999"), Some("x")] {
        let millis = resolve_timeout_ms(value);
        assert!((1..=60_000).contains(&millis), "{value:?} gave {millis}");
    }
    assert_eq!(resolve_timeout_ms(Some("+5")), 5);
    assert_eq!(resolve_timeout_ms(Some("99999999999999999999")), 10_000);
}

#[test]
fn chunks_read_back_their_text() {
    for text in ["", "a", "ab", "abc", "héllo wörld", "🦀🦀🦀"] {
        let chunks = chunk_in_two(text);
        assert_eq!(chunks.concat(), text);
        if chunks.len() == 2 {
            let (a, b) = (chunks[0].chars().count(), chunks[1].chars().count());
            assert!(a <= b && b <= a + 1);
        }
    }
}

#[test]
fn newer_messages_never_earn_less_recency() {
    for count in 1..12usize {
        let mut previous = 0;
        for index in 0..count {
            let bonus = recency_bonus(index, count);
            assert!(bonus >= previous && bonus <= 499);
            previous = bonus;
        }
    }
}

#[test]
fn finalized_context_fits_and_accounts_for_every_candidate() {
    let route = DefaultRoute { model: ModelReference { provider: Provider::Ollama, model: "llama3".to_string() }, fallbacks: Vec::new() };
    let matched = RouteMatch { intent: TaskIntent::Chat, source: RouteSource::Default { route: &route }, reason: String::new() };
    let recalled = RecalledContext {
        messages: Vec::new(),
        user_memory: (0..5).map(|i| MemoryFact { key: format!("m{i}"), content: "x".repeat(4 * (i + 1)) }).collect(),
        context_memory: Vec::new(),
    };
    let attachments = Attachments {
        files: vec![ContextFile { path: "a.rs".to_string(), content: "abcd".to_string(), required: true }],
        instructions: Vec::new(),
        invoked_skills: Vec::new(),
        available_skills: Vec::new(),
    };
    let workspace = Workspace { root: "/w".to_string(), git_branch: None, git_diff: None, referenced_paths: Vec::new(), active_file: None };
    let privacy = PrivacyPolicy { restricted_paths: Vec::new() };
    let set = ContextSelector.build_candidates(&matched, &recalled, &attachments, &workspace, &privacy);
    let count = set.candidates.len();
    let model = ModelDescriptor {
        provider: Provider::Ollama,
        model: "llama3".to_string(),
        display_name: None,
        local: true,
        auth: ModelAuthRequirement::Keyless,
        capabilities: ModelCapabilities::default(),
        max_context_tokens: 7,
        max_output_tokens: Some(0),
    };

    let resolved = ContextSelector.finalize(set, &model).expect("the required file fits");

    let used: u64 = resolved.included.iter().map(|c| c.estimated_tokens).sum();
    assert!(used <= 7);
    assert_eq!(resolved.references.len(), count);
    assert_eq!(resolved.outcome.included.len() + resolved.outcome.excluded.len(), count);
    assert!(resolved.included.iter().any(|c| c.kind == CandidateKind::File && c.required));
}
