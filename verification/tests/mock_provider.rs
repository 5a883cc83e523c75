use smista_router::mock::{canned_stream, mock_response, render_completion, CompletionResponse, MockProvider, StreamEvent, ToolCall};
use smista_router::types::{ModelAuthRequirement, Provider};
use smista_router::usage::Usage;

fn empty_usage() -> Usage {
    Usage { input_tokens: None, output_tokens: None, total_tokens: None, currency: None, estimated_cost: None }
}

fn texts(events: &[StreamEvent]) -> Vec<String> {
    events
        .iter()
        .filter_map(|e| match e {
            StreamEvent::TextDelta { delta } => Some(delta.clone()),
            _ => None,
        })
        .collect()
}

#[test]
fn a_local_mock_needs_no_key_and_a_remote_one_does() {
    let local = MockProvider::new(Provider::Ollama, "Local".to_string(), true, "llama3".to_string());
    let descriptor = local.descriptor_for(&local.reference());
    assert_eq!(descriptor.reference().text(), "ollama/llama3");
    assert!(descriptor.local);
    assert_eq!(descriptor.auth, ModelAuthRequirement::Keyless);
    assert_eq!(descriptor.max_context_tokens, 8_192);
    assert_eq!(descriptor.max_output_tokens, Some(4_096));
    assert!(descriptor.capabilities.streaming && descriptor.capabilities.tools && !descriptor.capabilities.images);

    let remote = MockProvider::new(Provider::OpenAI, "Remote".to_string(), false, "mini".to_string()).with_streaming(false);
    let descriptor = remote.descriptor_for(&remote.reference());
    assert_eq!(descriptor.auth, ModelAuthRequirement::ApiKey);
    assert!(!descriptor.capabilities.streaming);
}

#[test]
fn a_scripted_completion_streams_its_text_calls_usage_and_end() {
    let response = CompletionResponse {
        content: "response".to_string(),
        tool_calls: vec![ToolCall { call_id: "c1".to_string(), name: "read_file".to_string(), arguments: "{}".to_string() }],
        usage: empty_usage(),
    };

    let events = render_completion(response);

    assert_eq!(events.len(), 6);
    assert_eq!(texts(&events), ["resp", "onse"]);
    assert!(matches!(&events[2], StreamEvent::ToolCallStarted { call_id, name } if call_id == "c1" && name == "read_file"));
    assert!(matches!(&events[3], StreamEvent::ToolCallRequested { arguments, .. } if arguments == "{}"));
    assert!(matches!(events[4], StreamEvent::Usage(_)));
    assert!(matches!(events[5], StreamEvent::Done));
}

#[test]
fn an_empty_completion_streams_only_usage_and_end() {
    let events = render_completion(CompletionResponse { content: String::new(), tool_calls: Vec::new(), usage: empty_usage() });
    assert_eq!(events.len(), 2);
}

#[test]
fn the_canned_stream_reads_the_mock_response() {
    let events = canned_stream();
    assert!(matches!(&events[0], StreamEvent::ReasoningDelta { delta } if delta == "thinking..."));
    assert_eq!(texts(&events).concat(), mock_response());
    assert!(matches!(events[4], StreamEvent::Done));
}

#[test]
fn mock_facts_can_be_reconfigured() {
    let mock = MockProvider::new(Provider::Ollama, "Local".to_string(), true, "llama3".to_string()).with_stream_error(true);
    assert!(mock.stream_error);
    assert!(mock.streaming);
    assert_eq!(mock.reference().text(), "ollama/llama3");
}
