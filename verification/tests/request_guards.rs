use smista_router::streaming::{replay_events, ReplayOutcome, ToolRequest, TurnEvent};
use smista_router::usage::Usage;
use smista_router::credentials::{is_openai_compatible_instance_name, provider_from_header, query_has_credential};
use smista_router::streaming::{chunk_in_two, trim, wants_event_stream};
use smista_router::trace::SerializedPayload;
use smista_router::types::Provider;

fn instance_name(provider: Option<Provider>) -> Option<String> {
    match provider {
        Some(Provider::OpenAICompatible(name)) => Some(name),
        _ => None,
    }
}

#[test]
fn should_detect_credential_query_keys() {
    assert!(query_has_credential("api_key=x"));
    assert!(query_has_credential("foo=1&apiKey=secret"));
    assert!(query_has_credential("X-Smista-Provider-Anthropic-Api-Key=x"));
    assert!(query_has_credential("token=x"));
}

#[test]
fn should_allow_innocuous_query_keys() {
    assert!(!query_has_credential("page=2&limit=20"));
    assert!(!query_has_credential("archived=true"));
    assert!(!query_has_credential(""));
}

#[test]
fn query_values_never_mark_a_credential() {
    // Only the key before the first `=` is inspected.
    assert!(!query_has_credential("q=token&page=secret"));
    assert!(query_has_credential("password"));
    assert!(query_has_credential("a=1&MY_SECRET_VALUE=2"));
}

#[test]
fn should_parse_canonical_provider_credential_header() {
    assert!(matches!(provider_from_header("x-smista-provider-anthropic-api-key"), Some(Provider::Anthropic)));
}

#[test]
fn should_parse_openai_compatible_instance_header() {
    assert_eq!(
        instance_name(provider_from_header("x-smista-provider-my-vllm-api-key")),
        Some("my-vllm".to_string())
    );
}

#[test]
fn should_ignore_headers_that_are_not_provider_credentials() {
    for name in [
        "content-type",
        "authorization",
        // The provider segment is missing entirely.
        "x-smista-provider--api-key",
        // The closing `-api-key` suffix is missing.
        "x-smista-provider-anthropic",
        // The opening prefix is missing.
        "anthropic-api-key",
        // An invalid instance name (`.` is not allowed) is not a provider.
        "x-smista-provider-bad.name-api-key",
    ] {
        assert!(provider_from_header(name).is_none(), "{name} should not parse as a provider credential header");
    }
}

#[test]
fn provider_header_recognises_every_canonical_provider() {
    assert!(matches!(provider_from_header("x-smista-provider-openai-api-key"), Some(Provider::OpenAI)));
    assert!(matches!(provider_from_header("x-smista-provider-ollama-api-key"), Some(Provider::Ollama)));
    // The prefix and suffix must not overlap.
    assert!(provider_from_header("x-smista-provider-api-key").is_none());
}

#[test]
fn instance_names_are_lowercase_letters_digits_dashes_and_underscores() {
    assert!(is_openai_compatible_instance_name("my_vllm-2"));
    assert!(!is_openai_compatible_instance_name(""));
    assert!(!is_openai_compatible_instance_name("My-vllm"));
    assert!(!is_openai_compatible_instance_name("bad.name"));
}

#[test]
fn event_stream_is_chosen_only_when_asked_for_exactly() {
    assert!(wants_event_stream(Some("text/event-stream")));
    assert!(wants_event_stream(Some("application/json, text/event-stream;q=0.9")));
    assert!(wants_event_stream(Some("  text/event-stream  ")));
    assert!(!wants_event_stream(Some("application/json")));
    assert!(!wants_event_stream(Some("*/*")));
    assert!(!wants_event_stream(Some("text/event-streams")));
    assert!(!wants_event_stream(None));
}

#[test]
fn trim_removes_surrounding_whitespace_only() {
    assert_eq!(trim("  a b\t\n"), "a b");
    assert_eq!(trim("   "), "");
    assert_eq!(trim("x"), "x");
}

#[test]
fn chunk_in_two_balances_characters() {
    assert!(chunk_in_two("").is_empty());
    assert_eq!(chunk_in_two("a"), ["a"]);
    assert_eq!(chunk_in_two("response"), ["resp", "onse"]);
    assert_eq!(chunk_in_two("héllo"), ["hé", "llo"]);
}

#[test]
fn serialized_payload_hands_back_its_json() {
    let payload = SerializedPayload::from_json("{\"type\":\"cost\"}".to_string());
    assert_eq!(payload.as_str(), "{\"type\":\"cost\"}");
    let copy = payload.duplicate();
    assert_eq!(copy.into_string(), payload.as_str());
    assert!(!payload.as_str().is_empty());
    assert_eq!(payload.into_string(), "{\"type\":\"cost\"}");
}

fn no_usage() -> Usage {
    Usage { input_tokens: Some(3), output_tokens: Some(4), total_tokens: Some(7), currency: None, estimated_cost: None }
}

#[test]
fn replay_of_a_completed_turn_is_its_text_usage_and_end() {
    let events = replay_events(ReplayOutcome::Completed { content: "hi there".to_string(), usage: no_usage() }, 42u32);
    assert_eq!(events.len(), 3);
    assert!(matches!(&events[0], TurnEvent::TextDelta { delta } if delta == "hi there"));
    assert!(matches!(&events[1], TurnEvent::Usage(u) if u.total_tokens == Some(7)));
    assert!(matches!(events[2], TurnEvent::TurnEnd(42)));
}

#[test]
fn replay_skips_empty_text_and_pairs_each_tool_call() {
    let events = replay_events(ReplayOutcome::Completed { content: String::new(), usage: no_usage() }, ());
    assert_eq!(events.len(), 2);
    assert!(matches!(events[0], TurnEvent::Usage(_)));

    let request = |id: &str, approval: bool| ToolRequest {
        call_id: id.to_string(),
        name: "file_write".to_string(),
        arguments: "{}".to_string(),
        requires_approval: approval,
    };
    let events = replay_events(ReplayOutcome::AwaitingTool { tool_requests: vec![request("a", true), request("b", false)] }, ());
    assert_eq!(events.len(), 5);
    assert!(matches!(&events[0], TurnEvent::ToolCallStarted { call_id, name } if call_id == "a" && name == "file_write"));
    assert!(matches!(&events[1], TurnEvent::ToolCallRequested { call_id, requires_approval: true, .. } if call_id == "a"));
    assert!(matches!(&events[2], TurnEvent::ToolCallStarted { call_id, .. } if call_id == "b"));
    assert!(matches!(&events[3], TurnEvent::ToolCallRequested { requires_approval: false, .. }));
    assert!(matches!(events[4], TurnEvent::TurnEnd(())));

    let events = replay_events(ReplayOutcome::Other, 7u8);
    assert_eq!(events.len(), 1);
}
